use okina_bot_kotoba_web::commands::env_variables::{get_rank_quizzes, QuizSettings, KOTOBA_BOT_ID};
use okina_bot_kotoba_web::commands::reports::{
    find_position, judge_report, plan_promotion, report_api_url, report_field_values, Embed, Promotion, ReportVerdict,
};
use okina_bot_kotoba_web::json::{parse_json_text, JsonValue};

fn json(text: &str) -> JsonValue {
    parse_json_text(text).unwrap()
}

fn embed(title: Option<&str>, values: &[&str]) -> Embed {
    Embed { title: title.map(|t| t.to_string()), field_values: values.iter().map(|v| v.to_string()).collect() }
}

#[test]
fn report_fields_come_from_ended_games_of_kotoba() {
    let embeds = vec![
        embed(Some("Quiz Ended"), &["[View a report for this game](https://kotobaweb.com/dashboard/game_reports/abc)", "other"]),
        embed(Some("Quiz Started"), &["[View a report for this game](x)"]),
        embed(None, &["[View a report for this game](y)"]),
        embed(Some("Ended"), &["see [View a report for this game](z)"]),
    ];
    let values = report_field_values(KOTOBA_BOT_ID, &embeds);
    assert_eq!(
        values,
        vec![
            "[View a report for this game](https://kotobaweb.com/dashboard/game_reports/abc)".to_string(),
            "see [View a report for this game](z)".to_string(),
        ]
    );
    assert!(report_field_values(KOTOBA_BOT_ID + 1, &embeds).is_empty());
}

#[test]
fn report_url_takes_id_up_to_first_parenthesis() {
    assert_eq!(
        report_api_url("[View a report for this game](https://kotobaweb.com/dashboard/game_reports/5f3a)"),
        Some("https://kotobaweb.com/api/game_reports/5f3a".to_string())
    );
    assert_eq!(report_api_url("game_reports/a)b) game_reports/c)"), Some("https://kotobaweb.com/api/game_reports/a".to_string()));
    assert_eq!(report_api_url("game_reports/open game_reports/x)"), Some("https://kotobaweb.com/api/game_reports/open game_reports/x".to_string()));
    assert_eq!(report_api_url("game_reports/no end"), None);
    assert_eq!(report_api_url("[View a report for this game]"), None);
}

fn settings(role: u64) -> QuizSettings {
    (12, 16001, 60, "any".to_string(), role, 1)
}

fn kotoba_report(score: u64, participant: &str) -> JsonValue {
    json(&format!(
        r#"{{"scores": [{{"score": {}}}], "participants": [{{"discordUser": {{"id": "{}"}}}}],
            "questions": [1,2,3,4,5,6,7,8,9,10,11,12],
            "settings": {{"scoreLimit": 12, "answerTimeLimitInMs": 16000, "fontSize": 60,
                          "font": "x", "shuffle": true}},
            "isLoaded": false,
            "decks": [{{"uniqueId": "n5", "name": "JLPT N5", "mc": false}},
                      {{"uniqueId": "n4", "name": "JLPT N4", "mc": false}}]}}"#,
        score, participant
    ))
}

#[test]
fn judge_report_verdicts() {
    let ids = vec!["n4".to_string(), "n5+n4".to_string()];
    let quizzes = get_rank_quizzes(&ids, &[settings(100), settings(200)]);
    assert_eq!(
        judge_report(&kotoba_report(12, "123456789012345678"), &quizzes, &ids),
        Some(ReportVerdict::Passed { next_rank: 200, participant_id: 123456789012345678 })
    );
    assert_eq!(judge_report(&kotoba_report(11, "1"), &quizzes, &ids), Some(ReportVerdict::Failed { taunt: true }));
    let first_only = vec!["n5+n4".to_string(), "other".to_string()];
    let quizzes2 = get_rank_quizzes(&first_only, &[settings(100), settings(200)]);
    assert_eq!(judge_report(&kotoba_report(11, "1"), &quizzes2, &first_only), Some(ReportVerdict::Failed { taunt: false }));
    let unranked = get_rank_quizzes(&ids[..1], &[settings(100)]);
    assert_eq!(judge_report(&kotoba_report(12, "1"), &unranked, &ids), Some(ReportVerdict::Unranked));
    assert_eq!(judge_report(&kotoba_report(12, "not a number"), &quizzes, &ids), None);
    assert_eq!(judge_report(&json(r#"{"decks": 3}"#), &quizzes, &ids), None);
    assert_eq!(judge_report(&json(r#"{"decks": [{"uniqueId": "zz"}]}"#), &quizzes, &ids), Some(ReportVerdict::Unranked));
    assert_eq!(judge_report(&json(r#"{"decks": [{"uniqueId": "n4"}]}"#), &quizzes, &ids), None);
}

#[test]
fn promotion_swaps_rank_roles_one_step_up() {
    let roles = [0u64, 10, 20, 30];
    let names = vec!["Um".to_string(), "Dois".to_string(), "Três".to_string()];
    let report = kotoba_report(12, "42");
    match plan_promotion(&[10], 20, 42, &report, &roles, &names) {
        Promotion::Promote { remove_role, add_role, announcement } => {
            assert_eq!(remove_role, 10);
            assert_eq!(add_role, 20);
            assert_eq!(
                announcement.unwrap(),
                "<@!42> passou no(s) quiz(es): JLPT N5, JLPT N4, e agora é um(a) Dois! Parabéns!\nO próximo nível pode ser verificado através do comando `%levelup`."
            );
        },
        _ => panic!("expected a promotion"),
    }
    match plan_promotion(&[20], 30, 7, &report, &roles, &names) {
        Promotion::Promote { remove_role, add_role, announcement } => {
            assert_eq!((remove_role, add_role), (20, 30));
            assert_eq!(
                announcement.unwrap(),
                "<@!7> passou no(s) quiz(es): JLPT N5, JLPT N4!\nやられたー！　さすが伯刺西爾の大将ね。この私の攻撃を避けきるなんて。"
            );
        },
        _ => panic!("expected a promotion"),
    }
}

#[test]
fn promotion_stays_or_fails() {
    let roles = [0u64, 10, 20, 30];
    let names = vec!["Um".to_string()];
    let report = kotoba_report(12, "42");
    assert!(matches!(plan_promotion(&[10], 30, 42, &report, &roles, &names), Promotion::Stay));
    assert!(matches!(plan_promotion(&[30], 30, 42, &report, &roles, &names), Promotion::Stay));
    assert!(matches!(plan_promotion(&[10], 20, 42, &report, &[0], &names), Promotion::Malformed));
    let nameless = json(r#"{"decks": [{"uniqueId": "n5"}]}"#);
    assert!(matches!(plan_promotion(&[10], 20, 42, &nameless, &roles, &names), Promotion::Malformed));
    match plan_promotion(&[10], 20, 42, &report, &roles, &names) {
        Promotion::Promote { announcement, .. } => assert_eq!(announcement, None),
        _ => panic!("expected a promotion"),
    }
}

#[test]
fn first_position_of_role() {
    assert_eq!(find_position(&[4, 5, 4], 4), 0);
    assert_eq!(find_position(&[4, 5, 4], 5), 1);
    assert_eq!(find_position(&[4, 5, 4], 6), 3);
}
