use okina_bot_kotoba_web::commands::env_variables::{
    env_vars_readable, get_command_phrases, get_rank_commands, get_rank_quizzes, load_quiz_commands, load_quiz_ids,
    load_quiz_settings, load_rank_names, load_rank_roles, QuizSettings, TOP_RANK_PHRASE,
};
use okina_bot_kotoba_web::commands::levelup::get_quiz_key;
use okina_bot_kotoba_web::json::{parse_json_text, JsonValue};

const ENV_EXAMPLE: &str = r#"{
    "SERVER_ID": 123456789,
    "ANNOUNCEMENT_CHANNEL_ID": 987654321,
    "RANK_NAMES": ["新米少佐", "中佐", "大佐", "准将", "少将", "中将"],
    "RANK_ROLE_IDS": [847610868232618015, 847610868232618016, 847610868232618017,
                      847610868232618018, 847610868232618019, 847610868232618020],
    "QUIZ_SETTINGS": [
        {"num_questions": 12, "time_limit_ms": 16001, "size": 60, "font": "any", "misses": 0},
        {"num_questions": 15, "time_limit_ms": 16001, "size": 60, "font": "any", "misses": 1},
        {"num_questions": 20, "time_limit_ms": 14001, "size": 60, "font": "any", "misses": 1},
        {"num_questions": 20, "time_limit_ms": 12001, "size": 60, "font": "AC Gyousho", "misses": 2},
        {"num_questions": 25, "time_limit_ms": 10001, "size": 40, "font": "AC Gyousho", "misses": 2},
        {"num_questions": 30, "time_limit_ms": 25001, "size": 40, "font": "AC Gyousho", "misses": 1}
    ],
    "QUIZ_COMMANDS": [
        "k!quiz n5 nd atl=16 12 size=60 mmq=1",
        "k!quiz n4 nd atl=16 15 size=60 mmq=2",
        "k!quiz n3 nd atl=14 20 size=60 mmq=2",
        "k!quiz n2 nd atl=12 20 font=5 mmq=3",
        "k!quiz n1 nd atl=10 25 font=5 size=40 mmq=3",
        "k!quiz 2k+new_con_book(2000-3300)+ln1 nd atl=25 30 font=5 size=40 mmq=2"
    ],
    "QUIZ_IDS": ["JLPT N5", "JLPT N4", "JLPT N3", "JLPT N2", "JLPT N1",
                 "kanken_2k+0e50357b-59a5-44c9-9de3-02120f5bcbf3(2000-3300)+ln1"]
}"#;

fn env_vars_test() -> JsonValue {
    parse_json_text(ENV_EXAMPLE).expect("Failed to parse json")
}

pub const SAMPLE_KOTOBA_REPORT: &str = "{
    \"decks\":[
        {
            \"name\":\"Kanken 2級 Reading Quiz\",
            \"shortName\":\"2k\",
            \"uniqueId\":\"kanken_2k\",
            \"mc\":false
        },
        {
            \"name\":\"YYYY's New Quiz\",
            \"shortName\":\"new_con_book\",
            \"uniqueId\":\"0e50357b-59a5-44c9-9de3-02120f5bcbf3\",
            \"startIndex\":2000,
            \"endIndex\":3300,
            \"mc\":false,
            \"internetDeck\":true
        },
        {
            \"name\":\"JLPT N1 Listening Quiz\",
            \"shortName\":\"ln1\",
            \"uniqueId\":\"ln1\",
            \"mc\":false
        }
    ],
    \"sessionName\":\"Multiple Deck Quiz\",
    \"startTime\":\"2021-07-29T02:59:53.964Z\",
    \"endTime\":\"2021-07-29T03:00:07.537Z\",
    \"settings\":{
        \"scoreLimit\":30,
        \"unansweredQuestionLimit\":5,
        \"answerTimeLimitInMs\":25000,
        \"newQuestionDelayAfterUnansweredInMs\":0,
        \"newQuestionDelayAfterAnsweredInMs\":0,
        \"additionalAnswerWaitTimeInMs\":0,
        \"fontSize\":40,
        \"fontColor\":\"rgb(0, 0, 0)\",
        \"backgroundColor\":\"rgb(255, 255, 255)\",
        \"font\":\"AC Gyousho\",
        \"maxMissedQuestions\":1,
        \"shuffle\":true,
        \"serverSettings\":{
            \"bgColor\":\"rgb(255, 255, 255)\",
            \"fontFamily\":\"Noto Sans CJK\",
            \"color\":\"rgb(0, 0, 0)\",
            \"size\":92,
            \"additionalAnswerWaitWindow\":2.1,
            \"answerTimeLimit\":16,
            \"conquestAndInfernoEnabled\":true,
            \"internetDecksEnabled\":true,
            \"delayAfterAnsweredQuestion\":2.2,
            \"delayAfterUnansweredQuestion\":3,
            \"scoreLimit\":10,
            \"unansweredQuestionLimit\":5,
            \"maxMissedQuestions\":0,
            \"shuffle\":true
        },
        \"inlineSettings\":{
            \"fontFamily\":\"AC Gyousho\",
            \"size\":40,
            \"delayAfterUnansweredQuestion\":0,
            \"delayAfterAnsweredQuestion\":0,
            \"additionalAnswerWaitWindow\":0,
            \"aliases\":[\"nodelay\",\"nd\"],
            \"answerTimeLimit\":25,
            \"maxMissedQuestions\":1,
            \"scoreLimit\":30
        }
    },
    \"isLoaded\":false
}";

#[test]
fn test_env_var_loaders() {
    let env = env_vars_test();
    assert!(env_vars_readable(&env));

    let rank_names = load_rank_names(&env);
    assert_eq!(rank_names[0], "新米少佐");

    let rank_roles = load_rank_roles(&env);
    assert_eq!(rank_roles[0], 0);
    assert_eq!(rank_roles[1], 847610868232618015);

    let quiz_commands = load_quiz_commands(&env);
    assert_eq!(quiz_commands[0], "k!quiz n5 nd atl=16 12 size=60 mmq=1");

    let quiz_settings = load_quiz_settings(&env, &rank_roles);
    assert_eq!(quiz_settings[0], (12, 16001, 60, "any".to_string(), rank_roles[1], 0));

    let quiz_ids = load_quiz_ids(&env);
    assert_eq!(quiz_ids[0], "JLPT N5");
}

#[test]
fn test_get_quiz_key() {
    let env = env_vars_test();
    let sample_kotoba_report = parse_json_text(SAMPLE_KOTOBA_REPORT).unwrap();
    let quiz_ids = load_quiz_ids(&env);
    let quiz_key = get_quiz_key(sample_kotoba_report.get("decks").unwrap());
    assert_eq!(&quiz_key, &quiz_ids[5]);
}

#[test]
fn rank_roles_start_with_no_role() {
    let env = parse_json_text(r#"{"RANK_ROLE_IDS": [7, 8]}"#).unwrap();
    assert_eq!(load_rank_roles(&env), vec![0, 7, 8]);
    let empty = parse_json_text(r#"{"RANK_ROLE_IDS": []}"#).unwrap();
    assert_eq!(load_rank_roles(&empty), vec![0]);
}

#[test]
fn quiz_settings_pair_with_roles_and_truncate() {
    let env = parse_json_text(
        r#"{"QUIZ_SETTINGS": [
            {"num_questions": 4294967297, "time_limit_ms": 5, "size": 6, "font": "f", "misses": 257},
            {"num_questions": 1, "time_limit_ms": 2, "size": 3, "font": "g", "misses": 4},
            {"broken": true}
        ]}"#,
    )
    .unwrap();
    let settings = load_quiz_settings(&env, &[0, 100, 200]);
    assert_eq!(settings.len(), 2);
    assert_eq!(settings[0], (1, 5, 6, "f".to_string(), 100, 1));
    assert_eq!(settings[1], (1, 2, 3, "g".to_string(), 200, 4));
    let fewer_roles = load_quiz_settings(&env, &[0]);
    assert!(fewer_roles.is_empty());
}

#[test]
fn env_vars_readable_rejects_missing_or_mistyped_lists() {
    let env = env_vars_test();
    assert!(env_vars_readable(&env));
    let no_names = parse_json_text(
        r#"{"RANK_ROLE_IDS": [1], "QUIZ_SETTINGS": [], "QUIZ_COMMANDS": [], "QUIZ_IDS": []}"#,
    )
    .unwrap();
    assert!(!env_vars_readable(&no_names));
    let bad_role = parse_json_text(
        r#"{"RANK_NAMES": [], "RANK_ROLE_IDS": [-1], "QUIZ_SETTINGS": [], "QUIZ_COMMANDS": [], "QUIZ_IDS": []}"#,
    )
    .unwrap();
    assert!(!env_vars_readable(&bad_role));
    let bad_setting = parse_json_text(
        r#"{"RANK_NAMES": [], "RANK_ROLE_IDS": [1], "QUIZ_SETTINGS": [{"num_questions": 1}], "QUIZ_COMMANDS": [], "QUIZ_IDS": []}"#,
    )
    .unwrap();
    assert!(!env_vars_readable(&bad_setting));
    let unread_setting = parse_json_text(
        r#"{"RANK_NAMES": [], "RANK_ROLE_IDS": [], "QUIZ_SETTINGS": [{"num_questions": 1}], "QUIZ_COMMANDS": [], "QUIZ_IDS": []}"#,
    )
    .unwrap();
    assert!(env_vars_readable(&unread_setting));
    let bad_command = parse_json_text(
        r#"{"RANK_NAMES": [], "RANK_ROLE_IDS": [], "QUIZ_SETTINGS": [], "QUIZ_COMMANDS": [3], "QUIZ_IDS": []}"#,
    )
    .unwrap();
    assert!(!env_vars_readable(&bad_command));
}

#[test]
fn command_phrases_number_levels_and_end_with_top_rank() {
    let names = vec!["新米少佐".to_string(), "中佐".to_string()];
    let commands = vec!["k!quiz n5".to_string(), "k!quiz n4".to_string(), "unused".to_string()];
    let phrases = get_command_phrases(&names, &commands);
    assert_eq!(
        phrases,
        vec![
            "Nível 1 (新米少佐):\n`k!quiz n5`".to_string(),
            "Nível 2 (中佐):\n`k!quiz n4`".to_string(),
            TOP_RANK_PHRASE.to_string(),
        ]
    );
    assert_eq!(TOP_RANK_PHRASE, "Você já está no nível mais alto. (Parabéns)");
}

#[test]
fn command_phrases_reach_two_digit_levels() {
    let names: Vec<String> = (0..12).map(|i| format!("r{}", i)).collect();
    let commands: Vec<String> = (0..12).map(|i| format!("c{}", i)).collect();
    let phrases = get_command_phrases(&names, &commands);
    assert_eq!(phrases.len(), 13);
    assert_eq!(phrases[11], "Nível 12 (r11):\n`c11`");
}

#[test]
fn rank_quizzes_map_ids_to_settings_later_id_wins() {
    let ids = vec!["a".to_string(), "b".to_string(), "a".to_string()];
    let settings: Vec<QuizSettings> = vec![
        (1, 1, 1, "any".to_string(), 10, 0),
        (2, 2, 2, "any".to_string(), 20, 0),
        (3, 3, 3, "any".to_string(), 30, 0),
    ];
    let quizzes = get_rank_quizzes(&ids, &settings);
    assert_eq!(quizzes.len(), 2);
    assert_eq!(quizzes.get("a").unwrap().4, 30);
    assert_eq!(quizzes.get("b").unwrap().4, 20);
    assert!(quizzes.get("c").is_none());
    let fewer = get_rank_quizzes(&ids, &settings[..1]);
    assert_eq!(fewer.len(), 1);
    assert_eq!(fewer.get("a").unwrap().0, 1);
}

#[test]
fn rank_commands_key_phrases_by_role() {
    let names = vec!["A".to_string(), "B".to_string()];
    let commands = vec!["ca".to_string(), "cb".to_string()];
    let roles = vec![0u64, 11, 22];
    let map = get_rank_commands(&names, &commands, &roles);
    assert_eq!(map.len(), 3);
    assert_eq!(map[&0], "Nível 1 (A):\n`ca`");
    assert_eq!(map[&11], "Nível 2 (B):\n`cb`");
    assert_eq!(map[&22], TOP_RANK_PHRASE);
    let short = get_rank_commands(&names, &commands, &[5]);
    assert_eq!(short.len(), 1);
    assert_eq!(short[&5], "Nível 1 (A):\n`ca`");
}
