use okina_bot_kotoba_web::commands::metadata::{niveis_message, ping_reply, tabela_message};

#[test]
fn niveis_lists_every_level_phrase() {
    let names = vec!["A".to_string(), "B".to_string()];
    let commands = vec!["ca".to_string(), "cb".to_string()];
    assert_eq!(niveis_message(&names, &commands), "Nível 1 (A):\n`ca`\nNível 2 (B):\n`cb`");
    assert_eq!(niveis_message(&[], &commands), "");
}

#[test]
fn tabela_counts_members_per_rank() {
    let members = vec![vec![10u64, 99], vec![20], vec![10], vec![], vec![20, 10]];
    let roles = [0u64, 10, 20, 30];
    let names = vec!["Um".to_string(), "Dois".to_string(), "Três".to_string()];
    assert_eq!(tabela_message(&members, &roles, &names), Some("Um: 3\nDois: 2\nTrês: 0".to_string()));
}

#[test]
fn tabela_without_answer() {
    let members = vec![vec![10u64]];
    assert_eq!(tabela_message(&members, &[], &[]), None);
    assert_eq!(tabela_message(&members, &[0, 10, 20], &["Um".to_string()]), None);
    assert_eq!(tabela_message(&members, &[0], &[]), Some(String::new()));
}

#[test]
fn tabela_count_overflow() {
    let members: Vec<Vec<u64>> = (0..65536).map(|_| vec![10u64]).collect();
    assert_eq!(tabela_message(&members, &[0, 10], &["Um".to_string()]), None);
    let fits: Vec<Vec<u64>> = (0..65535).map(|_| vec![10u64]).collect();
    assert_eq!(tabela_message(&fits, &[0, 10], &["Um".to_string()]), Some("Um: 65535".to_string()));
}

#[test]
fn tabela_counts_a_repeated_rank_role_at_its_first_position() {
    let members = vec![vec![10u64], vec![20]];
    let roles = [0u64, 10, 20, 10];
    let names = vec!["A".to_string(), "B".to_string(), "C".to_string()];
    assert_eq!(tabela_message(&members, &roles, &names), Some("A: 1\nB: 1\nC: 0".to_string()));
}

#[test]
fn ping_is_answered_with_pong() {
    assert_eq!(ping_reply("%ping"), Some("Pong%"));
    assert_eq!(ping_reply("%ping "), None);
    assert_eq!(ping_reply("ping"), None);
}
