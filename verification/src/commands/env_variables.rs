//! The bot's configuration: the rank names, the rank roles, the quiz
//! settings, commands and ids read from its JSON configuration, and the
//! tables built from them.
use vstd::prelude::*;
use std::collections::HashMap;
use vstd::hash_map::StringHashMap;
use crate::json::{JsonValue, json_field, json_array, json_str, json_u64};
use crate::text::{decimal, push_decimal, texts};

verus! {

broadcast use vstd::std_specs::hash::group_hash_axioms;

/// What a rank quiz asks for: score limit, answer time limit in ms, font
/// size, font (`"any"` for any font), the rank role it grants, and how many
/// questions may be failed.
pub type QuizSettings = (u32, u32, u32, String, u64, u8);

/// The rank quizzes keyed by quiz id.
pub type RankQuizMap = StringHashMap<QuizSettings>;

/// The endpoint that serves Kotoba game reports by id.
pub const KOTOBA_API_URL: &'static str = "https://kotobaweb.com/api/game_reports/";

/// The user id of the Kotoba quiz bot.
pub const KOTOBA_BOT_ID: u64 = 251239170058616833;

/// The phrase shown to a member who already holds the highest rank.
pub const TOP_RANK_PHRASE: &'static str = "Você já está no nível mais alto. (Parabéns)";

/// `env[key]` is an array of strings.
pub open spec fn string_list_readable(env: JsonValue, key: Seq<char>) -> bool {
    match json_array(json_field(env, key)) {
        Some(items) => forall|i: int| 0 <= i < items.len() ==> (#[trigger] json_str(items[i])) is Some,
        None => false,
    }
}

/// The strings of the array `env[key]`.
pub open spec fn string_list(env: JsonValue, key: Seq<char>) -> Seq<Seq<char>> {
    json_array(json_field(env, key)).unwrap().map_values(|x: JsonValue| json_str(x).unwrap())
}

/// `env[key]` is an array of non-negative integers.
pub open spec fn u64_list_readable(env: JsonValue, key: Seq<char>) -> bool {
    match json_array(json_field(env, key)) {
        Some(items) => forall|i: int| 0 <= i < items.len() ==> (#[trigger] json_u64(items[i])) is Some,
        None => false,
    }
}

/// The integers of the array `env[key]`.
pub open spec fn u64_list(env: JsonValue, key: Seq<char>) -> Seq<u64> {
    json_array(json_field(env, key)).unwrap().map_values(|x: JsonValue| json_u64(x).unwrap())
}

/// A quiz settings entry, with its font as text.
pub open spec fn settings_view(q: QuizSettings) -> (u32, u32, u32, Seq<char>, u64, u8) {
    (q.0, q.1, q.2, q.3@, q.4, q.5)
}

/// One entry of `QUIZ_SETTINGS` has every field that is read from it.
pub open spec fn settings_entry_readable(s: JsonValue) -> bool {
    &&& json_u64(json_field(s, "num_questions"@)) is Some
    &&& json_u64(json_field(s, "time_limit_ms"@)) is Some
    &&& json_u64(json_field(s, "size"@)) is Some
    &&& json_str(json_field(s, "font"@)) is Some
    &&& json_u64(json_field(s, "misses"@)) is Some
}

/// The settings that one entry of `QUIZ_SETTINGS` gives, with the role
/// that passing the quiz grants. The numbers are cut to the width of their
/// field, as `as` does.
pub open spec fn settings_entry(s: JsonValue, role: u64) -> (u32, u32, u32, Seq<char>, u64, u8) {
    (
        json_u64(json_field(s, "num_questions"@)).unwrap() as u32,
        json_u64(json_field(s, "time_limit_ms"@)).unwrap() as u32,
        json_u64(json_field(s, "size"@)).unwrap() as u32,
        json_str(json_field(s, "font"@)).unwrap(),
        role,
        json_u64(json_field(s, "misses"@)).unwrap() as u8,
    )
}

/// The smaller of two lengths.
pub open spec fn min_len(a: int, b: int) -> int {
    if a < b {
        a
    } else {
        b
    }
}

/// The first `count` entries of `items` (or all, if fewer) are readable
/// quiz settings.
pub open spec fn settings_prefix_readable(items: Seq<JsonValue>, count: int) -> bool {
    forall|i: int| 0 <= i < items.len() && i < count ==> settings_entry_readable(#[trigger] items[i])
}

/// `QUIZ_SETTINGS` is an array whose first `count` entries (or all, if
/// fewer) are readable.
pub open spec fn quiz_settings_readable(env: JsonValue, count: int) -> bool {
    match json_array(json_field(env, "QUIZ_SETTINGS"@)) {
        Some(items) => settings_prefix_readable(items, count),
        None => false,
    }
}

/// Reads the strings of `env[key]`.
fn read_string_list(env: &JsonValue, key: &str) -> (r: Vec<String>)
    requires
        string_list_readable(*env, key@),
    ensures
        texts(r@) == string_list(*env, key@),
{
    let items = env.get(key).unwrap().as_array().unwrap();
    let ghost spec_items = json_array(json_field(*env, key@)).unwrap();
    let mut r: Vec<String> = Vec::new();
    let mut i: usize = 0;
    while i < items.len()
        invariant
            items@ == spec_items,
            string_list_readable(*env, key@),
            spec_items == json_array(json_field(*env, key@)).unwrap(),
            i <= items.len(),
            r@.len() == i,
            forall|j: int| 0 <= j < i ==> r@[j]@ == json_str(spec_items[j]).unwrap(),
        decreases items.len() - i,
    {
        assert(json_str(spec_items[i as int]) is Some);
        let s = items[i].as_str().unwrap();
        r.push(s.clone());
        i = i + 1;
    }
    assert(texts(r@) =~= string_list(*env, key@));
    r
}

/// Reads the integers of `env[key]`.
fn read_u64_list(env: &JsonValue, key: &str) -> (r: Vec<u64>)
    requires
        u64_list_readable(*env, key@),
    ensures
        r@ == u64_list(*env, key@),
{
    let items = env.get(key).unwrap().as_array().unwrap();
    let ghost spec_items = json_array(json_field(*env, key@)).unwrap();
    let mut r: Vec<u64> = Vec::new();
    let mut i: usize = 0;
    while i < items.len()
        invariant
            items@ == spec_items,
            u64_list_readable(*env, key@),
            spec_items == json_array(json_field(*env, key@)).unwrap(),
            i <= items.len(),
            r@.len() == i,
            forall|j: int| 0 <= j < i ==> r@[j] == json_u64(spec_items[j]).unwrap(),
        decreases items.len() - i,
    {
        assert(json_u64(spec_items[i as int]) is Some);
        r.push(items[i].as_u64().unwrap());
        i = i + 1;
    }
    assert(r@ =~= u64_list(*env, key@));
    r
}

/// The rank names, from `RANK_NAMES`.
pub fn load_rank_names(env_vars: &JsonValue) -> (r: Vec<String>)
    requires
        string_list_readable(*env_vars, "RANK_NAMES"@),
    ensures
        texts(r@) == string_list(*env_vars, "RANK_NAMES"@),
{
    read_string_list(env_vars, "RANK_NAMES")
}

/// The rank roles: `0` (no role) followed by the role ids of `RANK_ROLE_IDS`.
pub fn load_rank_roles(env_vars: &JsonValue) -> (r: Vec<u64>)
    requires
        u64_list_readable(*env_vars, "RANK_ROLE_IDS"@),
    ensures
        r@ == seq![0u64] + u64_list(*env_vars, "RANK_ROLE_IDS"@),
{
    let ids = read_u64_list(env_vars, "RANK_ROLE_IDS");
    let mut r: Vec<u64> = Vec::new();
    r.push(0);
    let mut i: usize = 0;
    while i < ids.len()
        invariant
            i <= ids.len(),
            r@ == seq![0u64] + ids@.take(i as int),
        decreases ids.len() - i,
    {
        r.push(ids[i]);
        i = i + 1;
        assert(r@ =~= seq![0u64] + ids@.take(i as int));
    }
    assert(ids@.take(ids.len() as int) =~= ids@);
    r
}

/// The quiz settings of `QUIZ_SETTINGS`, paired in order with the rank
/// roles after the first: entry `i` grants `rank_roles[i + 1]`. Entries
/// beyond either list are left out.
pub fn load_quiz_settings(env_vars: &JsonValue, rank_roles: &[u64]) -> (r: Vec<QuizSettings>)
    requires
        rank_roles@.len() >= 1,
        quiz_settings_readable(*env_vars, rank_roles@.len() - 1),
    ensures
        r@.len() == min_len(
            json_array(json_field(*env_vars, "QUIZ_SETTINGS"@)).unwrap().len() as int,
            rank_roles@.len() - 1,
        ),
        forall|i: int|
            0 <= i < r@.len() ==> settings_view(#[trigger] r@[i]) == settings_entry(
                json_array(json_field(*env_vars, "QUIZ_SETTINGS"@)).unwrap()[i],
                rank_roles@[i + 1],
            ),
{
    let items = env_vars.get("QUIZ_SETTINGS").unwrap().as_array().unwrap();
    let ghost spec_items = json_array(json_field(*env_vars, "QUIZ_SETTINGS"@)).unwrap();
    let n: usize = if items.len() < rank_roles.len() - 1 { items.len() } else { rank_roles.len() - 1 };
    let mut r: Vec<QuizSettings> = Vec::new();
    let mut i: usize = 0;
    while i < n
        invariant
            items@ == spec_items,
            n == min_len(spec_items.len() as int, rank_roles@.len() - 1),
            rank_roles@.len() >= 1,
            quiz_settings_readable(*env_vars, rank_roles@.len() - 1),
            spec_items == json_array(json_field(*env_vars, "QUIZ_SETTINGS"@)).unwrap(),
            i <= n,
            r@.len() == i,
            forall|j: int|
                0 <= j < i ==> settings_view(#[trigger] r@[j]) == settings_entry(spec_items[j], rank_roles@[j + 1]),
        decreases n - i,
    {
        let s = &items[i];
        assert(settings_entry_readable(spec_items[i as int]));
        let num_questions = s.get("num_questions").unwrap().as_u64().unwrap();
        let time_limit_ms = s.get("time_limit_ms").unwrap().as_u64().unwrap();
        let size = s.get("size").unwrap().as_u64().unwrap();
        let font = s.get("font").unwrap().as_str().unwrap();
        let misses = s.get("misses").unwrap().as_u64().unwrap();
        let entry: QuizSettings = (
            num_questions as u32,
            time_limit_ms as u32,
            size as u32,
            font.clone(),
            rank_roles[i + 1],
            misses as u8,
        );
        r.push(entry);
        i = i + 1;
    }
    r
}

/// The quiz commands, from `QUIZ_COMMANDS`.
pub fn load_quiz_commands(env_vars: &JsonValue) -> (r: Vec<String>)
    requires
        string_list_readable(*env_vars, "QUIZ_COMMANDS"@),
    ensures
        texts(r@) == string_list(*env_vars, "QUIZ_COMMANDS"@),
{
    read_string_list(env_vars, "QUIZ_COMMANDS")
}

/// The quiz ids, from `QUIZ_IDS`: the key of each rank quiz as the game
/// reports name it.
pub fn load_quiz_ids(env_vars: &JsonValue) -> (r: Vec<String>)
    requires
        string_list_readable(*env_vars, "QUIZ_IDS"@),
    ensures
        texts(r@) == string_list(*env_vars, "QUIZ_IDS"@),
{
    read_string_list(env_vars, "QUIZ_IDS")
}

/// Every list of the configuration can be read: the requirements of the
/// five loaders above, for the rank roles that `load_rank_roles` gives.
pub open spec fn env_vars_readable_spec(env: JsonValue) -> bool {
    &&& string_list_readable(env, "RANK_NAMES"@)
    &&& u64_list_readable(env, "RANK_ROLE_IDS"@)
    &&& quiz_settings_readable(env, u64_list(env, "RANK_ROLE_IDS"@).len() as int)
    &&& string_list_readable(env, "QUIZ_COMMANDS"@)
    &&& string_list_readable(env, "QUIZ_IDS"@)
}

/// Whether `env[key]` is an array of strings.
fn check_string_list(env: &JsonValue, key: &str) -> (r: bool)
    ensures
        r == string_list_readable(*env, key@),
{
    let items = match env.get(key) {
        Some(v) => match v.as_array() {
            Some(items) => items,
            None => return false,
        },
        None => return false,
    };
    let ghost spec_items = json_array(json_field(*env, key@)).unwrap();
    let mut i: usize = 0;
    while i < items.len()
        invariant
            items@ == spec_items,
            json_array(json_field(*env, key@)) == Some(spec_items),
            i <= items.len(),
            forall|j: int| 0 <= j < i ==> (#[trigger] json_str(spec_items[j])) is Some,
        decreases items.len() - i,
    {
        if items[i].as_str().is_none() {
            return false;
        }
        i = i + 1;
    }
    true
}

/// Whether `env[key]` is an array of non-negative integers.
fn check_u64_list(env: &JsonValue, key: &str) -> (r: bool)
    ensures
        r == u64_list_readable(*env, key@),
{
    let items = match env.get(key) {
        Some(v) => match v.as_array() {
            Some(items) => items,
            None => return false,
        },
        None => return false,
    };
    let ghost spec_items = json_array(json_field(*env, key@)).unwrap();
    let mut i: usize = 0;
    while i < items.len()
        invariant
            items@ == spec_items,
            json_array(json_field(*env, key@)) == Some(spec_items),
            i <= items.len(),
            forall|j: int| 0 <= j < i ==> (#[trigger] json_u64(spec_items[j])) is Some,
        decreases items.len() - i,
    {
        if items[i].as_u64().is_none() {
            return false;
        }
        i = i + 1;
    }
    true
}

/// Whether one entry of `QUIZ_SETTINGS` has every field that is read.
fn check_settings_entry(s: &JsonValue) -> (r: bool)
    ensures
        r == settings_entry_readable(*s),
{
    let a = match s.get("num_questions") { Some(x) => x.as_u64().is_some(), None => false };
    let b = match s.get("time_limit_ms") { Some(x) => x.as_u64().is_some(), None => false };
    let c = match s.get("size") { Some(x) => x.as_u64().is_some(), None => false };
    let d = match s.get("font") { Some(x) => x.as_str().is_some(), None => false };
    let e = match s.get("misses") { Some(x) => x.as_u64().is_some(), None => false };
    a && b && c && d && e
}

/// Whether the first `count` entries of `QUIZ_SETTINGS` can be read.
fn check_quiz_settings(env: &JsonValue, count: usize) -> (r: bool)
    ensures
        r == quiz_settings_readable(*env, count as int),
{
    let items = match env.get("QUIZ_SETTINGS") {
        Some(v) => match v.as_array() {
            Some(items) => items,
            None => return false,
        },
        None => return false,
    };
    let ghost spec_items = json_array(json_field(*env, "QUIZ_SETTINGS"@)).unwrap();
    let n: usize = if items.len() < count { items.len() } else { count };
    let mut i: usize = 0;
    while i < n
        invariant
            items@ == spec_items,
            json_array(json_field(*env, "QUIZ_SETTINGS"@)) == Some(spec_items),
            n == min_len(spec_items.len() as int, count as int),
            i <= n,
            forall|j: int| 0 <= j < i ==> #[trigger] settings_entry_readable(spec_items[j]),
        decreases n - i,
    {
        if !check_settings_entry(&items[i]) {
            assert(!settings_entry_readable(spec_items[i as int]));
            return false;
        }
        i = i + 1;
    }
    true
}

/// Whether every list of the configuration can be read (what the five
/// loaders require).
pub fn env_vars_readable(env_vars: &JsonValue) -> (r: bool)
    ensures
        r == env_vars_readable_spec(*env_vars),
{
    if !check_string_list(env_vars, "RANK_NAMES") || !check_u64_list(env_vars, "RANK_ROLE_IDS") {
        return false;
    }
    let ids = read_u64_list(env_vars, "RANK_ROLE_IDS");
    check_quiz_settings(env_vars, ids.len()) && check_string_list(env_vars, "QUIZ_COMMANDS")
        && check_string_list(env_vars, "QUIZ_IDS")
}

/// The phrase that names the quiz of level `i + 1`.
pub open spec fn command_phrase(i: int, name: Seq<char>, command: Seq<char>) -> Seq<char> {
    "Nível "@ + decimal((i + 1) as nat) + " ("@ + name + "):\n`"@ + command + "`"@
}

/// One phrase per level, for as many levels as there are both names and
/// commands, followed by the phrase for the highest rank.
pub open spec fn command_phrases(names: Seq<Seq<char>>, commands: Seq<Seq<char>>) -> Seq<Seq<char>> {
    Seq::new(
        min_len(names.len() as int, commands.len() as int) as nat,
        |i: int| command_phrase(i, names[i], commands[i]),
    ).push(TOP_RANK_PHRASE@)
}

/// The command phrase of each level ("Nível 1 (name):" and the quiz
/// command between backticks), and last the phrase for the highest rank.
pub fn get_command_phrases(rank_names: &[String], quiz_commands: &[String]) -> (r: Vec<String>)
    ensures
        texts(r@) == command_phrases(texts(rank_names@), texts(quiz_commands@)),
{
    let n: usize = if rank_names.len() < quiz_commands.len() { rank_names.len() } else { quiz_commands.len() };
    let ghost names = texts(rank_names@);
    let ghost commands = texts(quiz_commands@);
    let mut phrases: Vec<String> = Vec::new();
    let mut i: usize = 0;
    while i < n
        invariant
            names == texts(rank_names@),
            commands == texts(quiz_commands@),
            n == min_len(names.len() as int, commands.len() as int),
            i <= n,
            phrases@.len() == i,
            forall|j: int| 0 <= j < i ==> (#[trigger] phrases@[j])@ == command_phrase(j, names[j], commands[j]),
        decreases n - i,
    {
        let mut s = String::new();
        s.append("Nível ");
        push_decimal(&mut s, (i + 1) as u64);
        s.append(" (");
        s.append(rank_names[i].as_str());
        s.append("):\n`");
        s.append(quiz_commands[i].as_str());
        s.append("`");
        assert(s@ == command_phrase(i as int, names[i as int], commands[i as int]));
        phrases.push(s);
        i = i + 1;
    }
    phrases.push(TOP_RANK_PHRASE.to_owned());
    assert(texts(phrases@) =~= command_phrases(names, commands));
    phrases
}

/// The map built by inserting `keys[i] => values[i]` for `i < n` in order:
/// a key given twice keeps its later value.
pub open spec fn zip_into_map<K, V>(keys: Seq<K>, values: Seq<V>, n: nat) -> Map<K, V>
    decreases n,
{
    if n == 0 {
        Map::empty()
    } else {
        zip_into_map(keys, values, (n - 1) as nat).insert(keys[n - 1], values[n - 1])
    }
}

/// A copy of quiz settings.
fn copy_settings(s: &QuizSettings) -> (r: QuizSettings)
    ensures
        r == *s,
{
    (s.0, s.1, s.2, s.3.clone(), s.4, s.5)
}

/// The rank quizzes by quiz id: `quiz_ids[i]` maps to `quiz_settings[i]`.
pub fn get_rank_quizzes(quiz_ids: &[String], quiz_settings: &[QuizSettings]) -> (r: RankQuizMap)
    ensures
        r@ == zip_into_map(
            texts(quiz_ids@),
            quiz_settings@,
            min_len(quiz_ids@.len() as int, quiz_settings@.len() as int) as nat,
        ),
{
    let n: usize = if quiz_ids.len() < quiz_settings.len() { quiz_ids.len() } else { quiz_settings.len() };
    let mut m: StringHashMap<QuizSettings> = StringHashMap::new();
    let mut i: usize = 0;
    while i < n
        invariant
            n == min_len(quiz_ids@.len() as int, quiz_settings@.len() as int),
            i <= n,
            m@ == zip_into_map(texts(quiz_ids@), quiz_settings@, i as nat),
        decreases n - i,
    {
        m.insert(quiz_ids[i].clone(), copy_settings(&quiz_settings[i]));
        i = i + 1;
    }
    m
}

/// The command phrases keyed by rank role: the role `rank_roles[i]` maps to
/// the phrase of level `i + 1` (the quiz that leads to the next rank), and
/// the role after the last level maps to the highest-rank phrase.
pub fn get_rank_commands(rank_names: &[String], quiz_commands: &[String], rank_roles: &[u64]) -> (r: HashMap<u64, String>)
    ensures
        r@.map_values(|s: String| s@) == zip_into_map(
            rank_roles@,
            command_phrases(texts(rank_names@), texts(quiz_commands@)),
            min_len(
                rank_roles@.len() as int,
                command_phrases(texts(rank_names@), texts(quiz_commands@)).len() as int,
            ) as nat,
        ),
{
    let phrases = get_command_phrases(rank_names, quiz_commands);
    let ghost spec_phrases = command_phrases(texts(rank_names@), texts(quiz_commands@));
    let n: usize = if rank_roles.len() < phrases.len() { rank_roles.len() } else { phrases.len() };
    let mut m: HashMap<u64, String> = HashMap::new();
    let mut i: usize = 0;
    while i < n
        invariant
            texts(phrases@) == spec_phrases,
            n == min_len(rank_roles@.len() as int, spec_phrases.len() as int),
            i <= n,
            m@.map_values(|s: String| s@) == zip_into_map(rank_roles@, spec_phrases, i as nat),
        decreases n - i,
    {
        let ghost before = m@;
        m.insert(rank_roles[i], phrases[i].clone());
        assert(m@.map_values(|s: String| s@) =~= before.map_values(|s: String| s@).insert(
            rank_roles@[i as int],
            spec_phrases[i as int],
        ));
        i = i + 1;
    }
    m
}

/// A key that is not given again later maps to its own value.
pub proof fn lemma_zip_into_map_lookup<K, V>(keys: Seq<K>, values: Seq<V>, n: nat, i: int)
    requires
        0 <= i < n,
        n <= keys.len(),
        n <= values.len(),
        forall|j: int| i < j < n ==> keys[j] != keys[i],
    ensures
        zip_into_map(keys, values, n).contains_key(keys[i]),
        zip_into_map(keys, values, n)[keys[i]] == values[i],
    decreases n,
{
    if n - 1 > i {
        lemma_zip_into_map_lookup(keys, values, (n - 1) as nat, i);
    }
}

/// The keys of the map are exactly the first `n` keys.
pub proof fn lemma_zip_into_map_domain<K, V>(keys: Seq<K>, values: Seq<V>, n: nat, k: K)
    requires
        n <= keys.len(),
    ensures
        zip_into_map(keys, values, n).contains_key(k) <==> exists|j: int| 0 <= j < n && keys[j] == k,
    decreases n,
{
    if n > 0 {
        lemma_zip_into_map_domain(keys, values, (n - 1) as nat, k);
        if zip_into_map(keys, values, (n - 1) as nat).contains_key(k) {
            let j = choose|j: int| 0 <= j < n - 1 && keys[j] == k;
            assert(0 <= j < n && keys[j] == k);
        }
        if keys[n - 1] == k {
            assert(0 <= n - 1 < n && keys[n - 1] == k);
        }
    }
}

/// The rank quizzes map each quiz id to the settings at its position,
/// when the id is not given again later, and know no other ids.
pub proof fn lemma_rank_quiz_lookup(quiz_ids: Seq<Seq<char>>, quiz_settings: Seq<QuizSettings>, i: int, id: Seq<char>)
    requires
        0 <= i < quiz_ids.len(),
        i < quiz_settings.len(),
        forall|j: int| i < j < quiz_ids.len() ==> quiz_ids[j] != quiz_ids[i],
    ensures
        zip_into_map(quiz_ids, quiz_settings, min_len(quiz_ids.len() as int, quiz_settings.len() as int) as nat)[quiz_ids[i]]
            == quiz_settings[i],
        zip_into_map(quiz_ids, quiz_settings, min_len(quiz_ids.len() as int, quiz_settings.len() as int) as nat).contains_key(id)
            <==> exists|j: int| 0 <= j < min_len(quiz_ids.len() as int, quiz_settings.len() as int) && quiz_ids[j] == id,
{
    let n = min_len(quiz_ids.len() as int, quiz_settings.len() as int) as nat;
    lemma_zip_into_map_lookup(quiz_ids, quiz_settings, n, i);
    lemma_zip_into_map_domain(quiz_ids, quiz_settings, n, id);
}

} // verus!
