//! Ranks and quizzes: where a member stands, which quiz leads to the next
//! rank, whether a Kotoba game report shows a valid rank quiz, and the key
//! under which a report's decks name their quiz.
use vstd::prelude::*;
use std::collections::HashMap;
use crate::commands::env_variables::{
    QuizSettings, command_phrase, command_phrases, lemma_zip_into_map_lookup, min_len, settings_view, zip_into_map,
};
use crate::json::{JsonValue, field, field_at, json_array, json_at, json_bool, json_field, json_get, json_str, json_u64};
use crate::text::{decimal, fold_join, join_pieces, lemma_decimal_digits, push_decimal, texts};

verus! {

broadcast use vstd::std_specs::hash::group_hash_axioms;

// ---------------------------------------------------------------------------
// Capture groups of the two patterns the bot searches with.
// ---------------------------------------------------------------------------

/// The pattern that finds the quiz command of a command phrase: the text
/// between the first backtick and the last backtick of the same line.
pub const COMMAND_PATTERN: &'static str = "`(.*)`";

/// The pattern that finds a game report id in a Kotoba message: what follows
/// `game_reports/` up to the first `)`.
pub const REPORT_PATTERN: &'static str = "game_reports/([^)]*)\\)";

/// No line break in `t[a..b]`.
pub open spec fn no_line_break(t: Seq<char>, a: int, b: int) -> bool {
    forall|k: int| a <= k < b ==> t[k] != '\n'
}

/// Backticks at `p` and `q` with no line break between them: a match of
/// `COMMAND_PATTERN` over `t[p..=q]`.
pub open spec fn backtick_span(t: Seq<char>, p: int, q: int) -> bool {
    &&& 0 <= p < q < t.len()
    &&& t[p] == '`'
    &&& t[q] == '`'
    &&& no_line_break(t, p + 1, q)
}

/// `g` is what `COMMAND_PATTERN` captures in `t` (leftmost match, greedy
/// `.*`), or `None` when it does not match.
pub open spec fn command_capture_is(t: Seq<char>, g: Option<Seq<char>>) -> bool {
    match g {
        None => forall|p: int, q: int| !#[trigger] backtick_span(t, p, q),
        Some(c) => exists|p: int, q: int|
            {
                &&& #[trigger] backtick_span(t, p, q)
                &&& forall|p2: int, q2: int| p2 < p ==> !#[trigger] backtick_span(t, p2, q2)
                &&& forall|q2: int| q < q2 ==> !#[trigger] backtick_span(t, p, q2)
                &&& c == t.subrange(p + 1, q)
            },
    }
}

/// `game_reports/` starts at position `p` of `t`.
pub open spec fn report_marker_at(t: Seq<char>, p: int) -> bool {
    &&& 0 <= p
    &&& p + "game_reports/"@.len() <= t.len()
    &&& t.subrange(p, p + "game_reports/"@.len()) == "game_reports/"@
}

/// A match of `REPORT_PATTERN` over `t[p..=q]`: the marker at `p` and the
/// first `)` after it at `q`.
pub open spec fn report_span(t: Seq<char>, p: int, q: int) -> bool {
    &&& report_marker_at(t, p)
    &&& p + "game_reports/"@.len() <= q < t.len()
    &&& t[q] == ')'
    &&& forall|k: int| p + "game_reports/"@.len() <= k < q ==> t[k] != ')'
}

/// `g` is what `REPORT_PATTERN` captures in `t` (leftmost match), or `None`
/// when it does not match.
pub open spec fn report_capture_is(t: Seq<char>, g: Option<Seq<char>>) -> bool {
    match g {
        None => forall|p: int, q: int| !#[trigger] report_span(t, p, q),
        Some(c) => exists|p: int, q: int|
            {
                &&& #[trigger] report_span(t, p, q)
                &&& forall|p2: int, q2: int| p2 < p ==> !#[trigger] report_span(t, p2, q2)
                &&& c == t.subrange(p + "game_reports/"@.len(), q)
            },
    }
}

/// The text of an optional string.
pub open spec fn opt_text(s: Option<String>) -> Option<Seq<char>> {
    match s {
        Some(x) => Some(x@),
        None => None,
    }
}

/// Compiles `pattern` with `regex::Regex::new` and returns capture group 1
/// of its leftmost match in `text` (`Regex::captures`), `None` when there
/// is no match. The contract restates, for each of the two patterns it
/// admits, the regex crate's documented leftmost-first, greedy semantics;
/// both patterns compile.
#[verifier::external_body]
pub(crate) fn first_capture(pattern: &str, text: &str) -> (r: Option<String>)
    requires
        pattern@ == COMMAND_PATTERN@ || pattern@ == REPORT_PATTERN@,
    ensures
        pattern@ == COMMAND_PATTERN@ ==> command_capture_is(text@, opt_text(r)),
        pattern@ == REPORT_PATTERN@ ==> report_capture_is(text@, opt_text(r)),
{
    match regex::Regex::new(pattern).unwrap().captures(text) {
        Some(caps) => Some(caps.get(1).map_or("", |m| m.as_str()).to_owned()),
        None => None,
    }
}

// ---------------------------------------------------------------------------
// Where a member stands.
// ---------------------------------------------------------------------------

/// The index of the highest rank among the first `n` rank roles that the
/// member holds, or `0` when none is held.
pub open spec fn held_rank_index(role_ids: Seq<u64>, rank_roles: Seq<u64>, n: nat) -> int
    decreases n,
{
    if n == 0 {
        0
    } else if role_ids.contains(rank_roles[n - 1]) {
        n - 1
    } else {
        held_rank_index(role_ids, rank_roles, (n - 1) as nat)
    }
}

/// The member's rank and the rank after it (the highest rank is followed by
/// itself).
pub open spec fn current_next_rank(role_ids: Seq<u64>, rank_roles: Seq<u64>) -> (u64, u64) {
    let i = held_rank_index(role_ids, rank_roles, rank_roles.len());
    (rank_roles[i], if i < rank_roles.len() - 1 { rank_roles[i + 1] } else { rank_roles[i] })
}

/// Whether `v` holds `x`.
fn contains_u64(v: &[u64], x: u64) -> (r: bool)
    ensures
        r == v@.contains(x),
{
    let mut i: usize = 0;
    while i < v.len()
        invariant
            i <= v.len(),
            forall|j: int| 0 <= j < i ==> v@[j] != x,
        decreases v.len() - i,
    {
        if v[i] == x {
            assert(v@[i as int] == x);
            return true;
        }
        i = i + 1;
    }
    false
}

/// The rank a member holds (the highest rank role among `role_ids`, or the
/// first rank role when none) and the rank after it.
pub fn get_current_next_rank(role_ids: &[u64], rank_roles: &[u64]) -> (r: (u64, u64))
    requires
        rank_roles@.len() >= 2,
    ensures
        r == current_next_rank(role_ids@, rank_roles@),
{
    let mut idx: usize = 0;
    let mut i: usize = 0;
    while i < rank_roles.len()
        invariant
            i <= rank_roles.len(),
            idx == held_rank_index(role_ids@, rank_roles@, i as nat),
            idx < rank_roles.len(),
        decreases rank_roles.len() - i,
    {
        if contains_u64(role_ids, rank_roles[i]) {
            idx = i;
        }
        i = i + 1;
    }
    let next = if idx < rank_roles.len() - 1 { rank_roles[idx + 1] } else { rank_roles[idx] };
    (rank_roles[idx], next)
}

/// The next rank is the rank right after the member's rank, or the highest
/// rank itself for a member who holds it; the member's rank is a rank role.
pub proof fn lemma_next_rank_is_one_up(role_ids: Seq<u64>, rank_roles: Seq<u64>)
    requires
        rank_roles.len() >= 2,
    ensures
        exists|i: int|
            0 <= i < rank_roles.len() && current_next_rank(role_ids, rank_roles).0 == #[trigger] rank_roles[i]
                && current_next_rank(role_ids, rank_roles).1 == rank_roles[if i + 1 < rank_roles.len() { i + 1 } else { i }],
{
    lemma_held_rank_index_bounds(role_ids, rank_roles, rank_roles.len());
    let i = held_rank_index(role_ids, rank_roles, rank_roles.len());
    assert(current_next_rank(role_ids, rank_roles).0 == rank_roles[i]);
}

/// The held rank index lies among the ranks looked at (or is `0`).
pub proof fn lemma_held_rank_index_bounds(role_ids: Seq<u64>, rank_roles: Seq<u64>, n: nat)
    ensures
        0 <= held_rank_index(role_ids, rank_roles, n),
        n > 0 ==> held_rank_index(role_ids, rank_roles, n) < n,
    decreases n,
{
    if n > 0 {
        lemma_held_rank_index_bounds(role_ids, rank_roles, (n - 1) as nat);
    }
}

/// A member who holds a rank role, and no higher one, is at that rank.
pub proof fn lemma_held_rank_is_current(role_ids: Seq<u64>, rank_roles: Seq<u64>, i: int)
    requires
        rank_roles.len() >= 2,
        0 <= i < rank_roles.len(),
        role_ids.contains(rank_roles[i]),
        forall|j: int| i < j < rank_roles.len() ==> !role_ids.contains(#[trigger] rank_roles[j]),
    ensures
        current_next_rank(role_ids, rank_roles).0 == rank_roles[i],
{
    lemma_held_index_is_last(role_ids, rank_roles, i, rank_roles.len());
}

/// Below `n`, the held rank index is the last held rank.
pub proof fn lemma_held_index_is_last(role_ids: Seq<u64>, rank_roles: Seq<u64>, i: int, n: nat)
    requires
        0 <= i < n <= rank_roles.len(),
        role_ids.contains(rank_roles[i]),
        forall|j: int| i < j < n ==> !role_ids.contains(#[trigger] rank_roles[j]),
    ensures
        held_rank_index(role_ids, rank_roles, n) == i,
    decreases n,
{
    if n - 1 > i {
        assert(!role_ids.contains(rank_roles[n - 1]));
        lemma_held_index_is_last(role_ids, rank_roles, i, (n - 1) as nat);
    }
}

// ---------------------------------------------------------------------------
// The next quiz command.
// ---------------------------------------------------------------------------

/// `command` is what the bot shows of `phrase`: the text between its
/// backticks when the command pattern matches, else the whole phrase.
pub open spec fn command_of_phrase(phrase: Seq<char>, command: Seq<char>) -> bool {
    ||| command_capture_is(phrase, Some(command))
    ||| (command_capture_is(phrase, None) && command == phrase)
}

/// The command of the quiz that leads from `current_rank` to the next rank:
/// the text between backticks in that rank's phrase, or the whole phrase
/// when it has none.
pub fn get_next_command(current_rank: u64, rank_commands: &HashMap<u64, String>) -> (r: String)
    requires
        rank_commands@.contains_key(current_rank),
    ensures
        command_of_phrase(rank_commands@[current_rank]@, r@),
{
    let text = rank_commands.get(&current_rank).unwrap();
    match first_capture(COMMAND_PATTERN, text.as_str()) {
        Some(cap) => cap,
        None => text.clone(),
    }
}

/// The first words of the answer to `%levelup`.
pub const LEVELUP_INTRO: &'static str = "O próximo comando para subir de nível é:\n`";

/// The rank whose command `%levelup` shows: the member's rank when their
/// roles are known, else the first rank.
pub open spec fn levelup_rank(role_ids: Option<Seq<u64>>, rank_roles: Seq<u64>) -> u64 {
    match role_ids {
        Some(ids) => current_next_rank(ids, rank_roles).0,
        None => rank_roles[0],
    }
}

/// `%levelup` can be answered: the rank roles it reads exist and the
/// member's rank has a command phrase.
pub open spec fn levelup_answerable(role_ids: Option<Seq<u64>>, rank_roles: Seq<u64>, rank_commands: Map<u64, String>) -> bool {
    &&& rank_roles.len() >= 1
    &&& role_ids is Some ==> rank_roles.len() >= 2
    &&& rank_commands.contains_key(levelup_rank(role_ids, rank_roles))
}

/// The view of optional role ids.
pub open spec fn opt_ids(role_ids: Option<&[u64]>) -> Option<Seq<u64>> {
    match role_ids {
        Some(ids) => Some(ids@),
        None => None,
    }
}

/// The answer to `%levelup`: the command of the member's next quiz between
/// backticks. `role_ids` are the member's roles, when they could be fetched.
/// `None` where the bot cannot answer (see `levelup_answerable`).
pub fn levelup_reply(role_ids: Option<&[u64]>, rank_roles: &[u64], rank_commands: &HashMap<u64, String>) -> (r: Option<String>)
    ensures
        r is Some <==> levelup_answerable(opt_ids(role_ids), rank_roles@, rank_commands@),
        r matches Some(msg) ==> exists|c: Seq<char>|
            command_of_phrase(rank_commands@[levelup_rank(opt_ids(role_ids), rank_roles@)]@, c)
                && msg@ == LEVELUP_INTRO@ + c + "`"@,
{
    if rank_roles.len() == 0 {
        return None;
    }
    let current = match role_ids {
        Some(ids) => {
            if rank_roles.len() < 2 {
                return None;
            }
            get_current_next_rank(ids, rank_roles).0
        },
        None => rank_roles[0],
    };
    if !rank_commands.contains_key(&current) {
        return None;
    }
    let command = get_next_command(current, rank_commands);
    let mut msg = LEVELUP_INTRO.to_owned();
    msg.append(command.as_str());
    msg.append("`");
    Some(msg)
}

// ---------------------------------------------------------------------------
// Reading a game report.
// ---------------------------------------------------------------------------

/// `report["settings"]`.
pub open spec fn report_settings(report: JsonValue) -> JsonValue {
    json_field(report, "settings"@)
}

/// `report["decks"][0]`.
pub open spec fn first_deck(report: JsonValue) -> JsonValue {
    json_at(json_field(report, "decks"@), 0)
}

/// A deck index field: `0` when the deck has no such key.
pub open spec fn deck_index(deck: JsonValue, key: Seq<char>) -> u64 {
    match json_get(deck, key) {
        Some(x) => json_u64(x).unwrap(),
        None => 0,
    }
}

/// A deck index field is absent or a non-negative integer.
pub open spec fn deck_index_readable(deck: JsonValue, key: Seq<char>) -> bool {
    match json_get(deck, key) {
        Some(x) => json_u64(x) is Some,
        None => true,
    }
}

/// An integer as `as i64` reads it from a 64-bit pattern.
pub open spec fn wrap_i64(x: int) -> int {
    if x <= i64::MAX {
        x
    } else {
        x - 0x1_0000_0000_0000_0000
    }
}

/// The number of questions minus the score limit, as the bot computes it
/// in `i64`.
pub open spec fn question_score_delta(report: JsonValue) -> int {
    wrap_i64(json_array(json_field(report, "questions"@)).unwrap().len() as int)
        - wrap_i64(json_u64(json_field(report_settings(report), "scoreLimit"@)).unwrap() as int)
}

/// Every field that the quiz predicates read is present with the right
/// type, and the question/score difference fits in an `i64`.
pub open spec fn quiz_report_readable(report: JsonValue) -> bool {
    let st = report_settings(report);
    &&& json_u64(json_field(json_at(json_field(report, "scores"@), 0), "score"@)) is Some
    &&& json_array(json_field(report, "participants"@)) is Some
    &&& json_array(json_field(report, "questions"@)) is Some
    &&& json_array(json_field(report, "questions"@)).unwrap().len() < 0x1_0000_0000_0000_0000
    &&& json_u64(json_field(st, "scoreLimit"@)) is Some
    &&& json_u64(json_field(st, "answerTimeLimitInMs"@)) is Some
    &&& json_u64(json_field(st, "fontSize"@)) is Some
    &&& json_str(json_field(st, "font"@)) is Some
    &&& json_bool(json_field(st, "shuffle"@)) is Some
    &&& json_bool(json_field(report, "isLoaded"@)) is Some
    &&& deck_index_readable(first_deck(report), "startIndex"@)
    &&& deck_index_readable(first_deck(report), "endIndex"@)
    &&& json_bool(json_field(first_deck(report), "mc"@)) is Some
    &&& i64::MIN <= question_score_delta(report) <= i64::MAX
}

/// The six reasons a report fails its rank quiz: invalid settings (a deck
/// range, multiple choice, no shuffle, or a loaded quiz), a score that does
/// not match the score limit or a score limit below the required one, more
/// than one participant, an answer time limit above the allowed one, the
/// wrong font or font size, and more failed questions than allowed.
pub open spec fn quiz_predicates(report: JsonValue, settings: (u32, u32, u32, Seq<char>, u64, u8)) -> (
    bool,
    bool,
    bool,
    bool,
    bool,
    bool,
) {
    let st = report_settings(report);
    let deck = first_deck(report);
    let main_score = json_u64(json_field(json_at(json_field(report, "scores"@), 0), "score"@)).unwrap();
    let participants = json_array(json_field(report, "participants"@)).unwrap().len();
    let score_limit = json_u64(json_field(st, "scoreLimit"@)).unwrap();
    let answer_time_limit = json_u64(json_field(st, "answerTimeLimitInMs"@)).unwrap();
    let font_size = json_u64(json_field(st, "fontSize"@)).unwrap();
    let font = json_str(json_field(st, "font"@)).unwrap();
    let is_shuffle = json_bool(json_field(st, "shuffle"@)).unwrap();
    let is_loaded = json_bool(json_field(report, "isLoaded"@)).unwrap();
    let is_mc = json_bool(json_field(deck, "mc"@)).unwrap();
    let delta = question_score_delta(report);
    (
        deck_index(deck, "startIndex"@) != 0 || deck_index(deck, "endIndex"@) != 0 || is_mc || !is_shuffle
            || is_loaded,
        main_score != score_limit || score_limit < settings.0,
        participants > 1,
        answer_time_limit > settings.1,
        settings.3 != "any"@ && (settings.3 != font || settings.2 != font_size),
        delta < 0 || delta > settings.5,
    )
}

/// The value of a deck index field (`0` when absent).
fn read_deck_index(deck: Option<&JsonValue>, key: &str) -> (r: u64)
    requires
        deck_index_readable(crate::json::or_null(opt_json(deck)), key@),
    ensures
        r == deck_index(crate::json::or_null(opt_json(deck)), key@),
{
    match deck {
        Some(d) => match d.get(key) {
            Some(x) => x.as_u64().unwrap(),
            None => 0,
        },
        None => 0,
    }
}

/// The value behind an optional reference.
pub open spec fn opt_json(v: Option<&JsonValue>) -> Option<JsonValue> {
    match v {
        Some(x) => Some(*x),
        None => None,
    }
}

/// `x` read as an `i64` bit pattern, widened.
fn wrap_u64(x: u64) -> (r: i128)
    ensures
        r == wrap_i64(x as int),
{
    if x <= 0x7fff_ffff_ffff_ffff {
        x as i128
    } else {
        (x as i128) - 0x1_0000_0000_0000_0000
    }
}

/// Whether a report can be checked against its quiz settings (see
/// `quiz_report_readable`).
pub fn quiz_report_is_readable(report: &JsonValue) -> (r: bool)
    ensures
        r == quiz_report_readable(*report),
{
    let top = Some(report);
    let st = field(top, "settings");
    let deck = field_at(field(top, "decks"), 0);
    let ok_score = match field(field_at(field(top, "scores"), 0), "score") {
        Some(x) => x.as_u64().is_some(),
        None => false,
    };
    let ok_participants = match field(top, "participants") {
        Some(x) => x.as_array().is_some(),
        None => false,
    };
    let questions = match field(top, "questions") {
        Some(x) => match x.as_array() {
            Some(q) => q.len() as u64,
            None => return false,
        },
        None => return false,
    };
    let score_limit = match field(st, "scoreLimit") {
        Some(x) => match x.as_u64() {
            Some(n) => n,
            None => return false,
        },
        None => return false,
    };
    let ok_time = match field(st, "answerTimeLimitInMs") {
        Some(x) => x.as_u64().is_some(),
        None => false,
    };
    let ok_size = match field(st, "fontSize") {
        Some(x) => x.as_u64().is_some(),
        None => false,
    };
    let ok_font = match field(st, "font") {
        Some(x) => x.as_str().is_some(),
        None => false,
    };
    let ok_shuffle = match field(st, "shuffle") {
        Some(x) => x.as_bool().is_some(),
        None => false,
    };
    let ok_loaded = match field(top, "isLoaded") {
        Some(x) => x.as_bool().is_some(),
        None => false,
    };
    let ok_start = match field(deck, "startIndex") {
        Some(x) => x.as_u64().is_some(),
        None => true,
    };
    let ok_end = match field(deck, "endIndex") {
        Some(x) => x.as_u64().is_some(),
        None => true,
    };
    let ok_mc = match field(deck, "mc") {
        Some(x) => x.as_bool().is_some(),
        None => false,
    };
    let delta = wrap_u64(questions) - wrap_u64(score_limit);
    let ok_delta = -0x8000_0000_0000_0000 <= delta && delta <= 0x7fff_ffff_ffff_ffff;
    ok_score && ok_participants && ok_time && ok_size && ok_font && ok_shuffle && ok_loaded && ok_start
        && ok_end && ok_mc && ok_delta
}

/// The six predicates of a game report against the settings of its quiz
/// (see `quiz_predicates`); the quiz is passed when all six are false.
pub fn get_quiz_predicates(kotoba_report: &JsonValue, settings: &QuizSettings) -> (r: (bool, bool, bool, bool, bool, bool))
    requires
        quiz_report_readable(*kotoba_report),
    ensures
        r == quiz_predicates(*kotoba_report, settings_view(*settings)),
{
    let top = Some(kotoba_report);
    let st = field(top, "settings");
    let deck = field_at(field(top, "decks"), 0);
    let main_partic_score = field(field_at(field(top, "scores"), 0), "score").unwrap().as_u64().unwrap();
    let participant_count = field(top, "participants").unwrap().as_array().unwrap().len();
    let question_count = field(top, "questions").unwrap().as_array().unwrap().len();
    let score_limit = field(st, "scoreLimit").unwrap().as_u64().unwrap();
    let answer_time_limit = field(st, "answerTimeLimitInMs").unwrap().as_u64().unwrap();
    let font_size = field(st, "fontSize").unwrap().as_u64().unwrap();
    let font = field(st, "font").unwrap().as_str().unwrap();
    let is_shuffle = field(st, "shuffle").unwrap().as_bool().unwrap();
    let is_loaded = field(top, "isLoaded").unwrap().as_bool().unwrap();
    let start_index = read_deck_index(deck, "startIndex");
    let end_index = read_deck_index(deck, "endIndex");
    let is_mc = field(deck, "mc").unwrap().as_bool().unwrap();
    let question_score_delta = wrap_u64(question_count as u64) - wrap_u64(score_limit);

    let invalid_settings = start_index != 0 || end_index != 0 || is_mc || !is_shuffle || is_loaded;
    let score_doesnt_match = main_partic_score != score_limit || score_limit < settings.0 as u64;
    let more_than_one_user = participant_count > 1;
    let time_limit_too_low = answer_time_limit > settings.1 as u64;
    let any_font = "any".to_owned();
    let wrong_font_settings = !(settings.3 == any_font) && (!(settings.3 == *font) || settings.2 as u64 != font_size);
    let failed_too_many = question_score_delta < 0 || question_score_delta > settings.5 as i128;
    (invalid_settings, score_doesnt_match, more_than_one_user, time_limit_too_low, wrong_font_settings, failed_too_many)
}

// ---------------------------------------------------------------------------
// The quiz key of a report's decks.
// ---------------------------------------------------------------------------

/// The key of one deck: its unique id, followed by `(start-end)` when the
/// deck has both a start and an end index.
pub open spec fn deck_key(deck: JsonValue) -> Seq<char> {
    let id = json_str(json_field(deck, "uniqueId"@)).unwrap();
    match (json_u64(json_field(deck, "startIndex"@)), json_u64(json_field(deck, "endIndex"@))) {
        (Some(start), Some(end)) => id + "("@ + decimal(start as nat) + "-"@ + decimal(end as nat) + ")"@,
        _ => id,
    }
}

/// Every deck of `items` has a string `uniqueId`.
pub open spec fn decks_have_ids(items: Seq<JsonValue>) -> bool {
    forall|i: int| 0 <= i < items.len() ==> (#[trigger] json_str(json_field(items[i], "uniqueId"@))) is Some
}

/// The decks are an array whose every deck has a string `uniqueId`.
pub open spec fn decks_keyable(decks: JsonValue) -> bool {
    match json_array(decks) {
        Some(items) => decks_have_ids(items),
        None => false,
    }
}

/// The quiz key of a list of decks: the deck keys joined by `+`.
pub open spec fn quiz_key(decks: JsonValue) -> Seq<char> {
    fold_join(json_array(decks).unwrap().map_values(|d: JsonValue| deck_key(d)), "+"@)
}

/// The key of one deck.
fn read_deck_key(deck: &JsonValue) -> (r: String)
    requires
        json_str(json_field(*deck, "uniqueId"@)) is Some,
    ensures
        r@ == deck_key(*deck),
{
    let top = Some(deck);
    let mut key = field(top, "uniqueId").unwrap().as_str().unwrap().clone();
    let start = match field(top, "startIndex") {
        Some(x) => x.as_u64(),
        None => None,
    };
    let end = match field(top, "endIndex") {
        Some(x) => x.as_u64(),
        None => None,
    };
    match (start, end) {
        (Some(s), Some(e)) => {
            key.append("(");
            push_decimal(&mut key, s);
            key.append("-");
            push_decimal(&mut key, e);
            key.append(")");
        },
        _ => {},
    }
    key
}

/// Whether the decks can be keyed (see `decks_keyable`).
pub fn decks_are_keyable(decks: &JsonValue) -> (r: bool)
    ensures
        r == decks_keyable(*decks),
{
    let items = match decks.as_array() {
        Some(items) => items,
        None => return false,
    };
    let mut i: usize = 0;
    while i < items.len()
        invariant
            json_array(*decks) == Some(items@),
            i <= items.len(),
            forall|j: int| 0 <= j < i ==> (#[trigger] json_str(json_field(items@[j], "uniqueId"@))) is Some,
        decreases items.len() - i,
    {
        let ok = match items[i].get("uniqueId") {
            Some(x) => x.as_str().is_some(),
            None => false,
        };
        if !ok {
            assert(json_str(json_field(items@[i as int], "uniqueId"@)) is None);
            assert(!decks_have_ids(items@));
            return false;
        }
        i = i + 1;
    }
    true
}

/// The key under which the rank quizzes name the quiz of a report: each
/// deck's unique id (with its index range when it has one), joined by `+`.
pub fn get_quiz_key(decks: &JsonValue) -> (r: String)
    requires
        decks_keyable(*decks),
    ensures
        r@ == quiz_key(*decks),
{
    let items = decks.as_array().unwrap();
    let ghost spec_items = items@;
    let mut pieces: Vec<String> = Vec::new();
    let mut i: usize = 0;
    while i < items.len()
        invariant
            json_array(*decks) == Some(spec_items),
            items@ == spec_items,
            decks_keyable(*decks),
            i <= items.len(),
            pieces@.len() == i,
            forall|j: int| 0 <= j < i ==> (#[trigger] pieces@[j])@ == deck_key(spec_items[j]),
        decreases items.len() - i,
    {
        assert(json_str(json_field(spec_items[i as int], "uniqueId"@)) is Some);
        pieces.push(read_deck_key(&items[i]));
        i = i + 1;
    }
    assert(texts(pieces@) =~= spec_items.map_values(|d: JsonValue| deck_key(d)));
    join_pieces(pieces.as_slice(), "+")
}

/// No backtick in `s`.
pub open spec fn no_backtick(s: Seq<char>) -> bool {
    forall|k: int| 0 <= k < s.len() ==> s[k] != '`'
}

/// A level's phrase shows its quiz command: when neither the rank name nor
/// the command holds a backtick and the command is one line, the command
/// pattern captures exactly the command.
pub proof fn lemma_phrase_shows_command(i: int, name: Seq<char>, command: Seq<char>)
    requires
        0 <= i,
        no_backtick(name),
        no_backtick(command),
        no_line_break(command, 0, command.len() as int),
    ensures
        command_of_phrase(command_phrase(i, name, command), command),
{
    reveal_strlit("Nível ");
    reveal_strlit(" (");
    reveal_strlit("):\n`");
    reveal_strlit("`");
    lemma_decimal_digits((i + 1) as nat);
    let d = decimal((i + 1) as nat);
    let pre = "Nível "@ + d + " ("@ + name + "):\n`"@;
    let t = command_phrase(i, name, command);
    assert(t =~= pre + command + "`"@);
    let a = pre.len() - 1;
    let b = t.len() - 1;
    assert forall|k: int| 0 <= k < a implies t[k] != '`' by {
        assert(t[k] == pre[k]);
        let n1 = "Nível "@.len() as int;
        let n2 = n1 + d.len();
        let n3 = n2 + 2;
        let n4 = n3 + name.len();
        if k < n1 {
        } else if k < n2 {
            assert(pre[k] == d[k - n1]);
            assert('0' <= d[k - n1] <= '9');
        } else if k < n3 {
        } else if k < n4 {
            assert(pre[k] == name[k - n3]);
        } else {
        }
    }
    assert forall|k: int| a < k < b implies t[k] != '`' && t[k] != '\n' by {
        assert(t[k] == command[k - a - 1]);
    }
    assert(backtick_span(t, a, b));
    assert forall|p2: int, q2: int| p2 < a implies !#[trigger] backtick_span(t, p2, q2) by {
        if 0 <= p2 {
            assert(t[p2] != '`');
        }
    }
    assert forall|q2: int| b < q2 implies !#[trigger] backtick_span(t, a, q2) by {}
    assert(t.subrange(a + 1, b) =~= command);
}

/// What `%levelup` shows is the quiz that leads to the member's next rank:
/// with distinct rank roles, a member whose highest rank role is
/// `rank_roles[i]` finds in the rank commands (as `get_rank_commands`
/// builds them) a phrase whose command is `quiz_commands[i]`.
pub proof fn lemma_levelup_shows_next_quiz(
    role_ids: Seq<u64>,
    rank_names: Seq<Seq<char>>,
    quiz_commands: Seq<Seq<char>>,
    rank_roles: Seq<u64>,
    i: int,
)
    requires
        rank_roles.len() >= 2,
        0 <= i < rank_roles.len(),
        i < rank_names.len(),
        i < quiz_commands.len(),
        forall|j: int, k: int| 0 <= j < k < rank_roles.len() ==> rank_roles[j] != rank_roles[k],
        role_ids.contains(rank_roles[i]),
        forall|j: int| i < j < rank_roles.len() ==> !role_ids.contains(#[trigger] rank_roles[j]),
        no_backtick(rank_names[i]),
        no_backtick(quiz_commands[i]),
        no_line_break(quiz_commands[i], 0, quiz_commands[i].len() as int),
    ensures
        ({
            let phrases = command_phrases(rank_names, quiz_commands);
            let commands = zip_into_map(rank_roles, phrases, min_len(rank_roles.len() as int, phrases.len() as int) as nat);
            let rank = current_next_rank(role_ids, rank_roles).0;
            commands.contains_key(rank) && command_of_phrase(commands[rank], quiz_commands[i])
        }),
{
    let phrases = command_phrases(rank_names, quiz_commands);
    let n = min_len(rank_roles.len() as int, phrases.len() as int) as nat;
    lemma_held_rank_is_current(role_ids, rank_roles, i);
    assert(i < min_len(rank_names.len() as int, quiz_commands.len() as int));
    assert(phrases[i] == command_phrase(i, rank_names[i], quiz_commands[i]));
    lemma_zip_into_map_lookup(rank_roles, phrases, n, i);
    lemma_phrase_shows_command(i, rank_names[i], quiz_commands[i]);
}

/// A member who holds none of the first `n` rank roles is at the first rank.
pub proof fn lemma_no_rank_held(role_ids: Seq<u64>, rank_roles: Seq<u64>, n: nat)
    requires
        n <= rank_roles.len(),
        forall|j: int| 0 <= j < n ==> !role_ids.contains(#[trigger] rank_roles[j]),
    ensures
        held_rank_index(role_ids, rank_roles, n) == 0,
    decreases n,
{
    if n > 0 {
        assert(!role_ids.contains(rank_roles[n - 1]));
        lemma_no_rank_held(role_ids, rank_roles, (n - 1) as nat);
    }
}

/// What each of the six quiz predicates means, read off the report's own
/// fields: a deck range, multiple choice, no shuffle or a loaded quiz
/// invalidate the settings (and nothing else does); the score must equal
/// the score limit and the limit reach the required one; a single player;
/// an answer time limit within the allowed one; the font and size matter
/// only when a font is required; and the questions asked must lie between
/// the score limit and the score limit plus the allowed misses.
pub proof fn lemma_quiz_predicates_meaning(report: JsonValue, settings: (u32, u32, u32, Seq<char>, u64, u8))
    requires
        quiz_report_readable(report),
    ensures
        ({
            let p = quiz_predicates(report, settings);
            let deck = json_at(json_field(report, "decks"@), 0);
            let st = json_field(report, "settings"@);
            let score = json_u64(json_field(json_at(json_field(report, "scores"@), 0), "score"@)).unwrap();
            let limit = json_u64(json_field(st, "scoreLimit"@)).unwrap();
            let questions = json_array(json_field(report, "questions"@)).unwrap().len();
            let players = json_array(json_field(report, "participants"@)).unwrap().len();
            let time = json_u64(json_field(st, "answerTimeLimitInMs"@)).unwrap();
            let font = json_str(json_field(st, "font"@)).unwrap();
            let size = json_u64(json_field(st, "fontSize"@)).unwrap();
            let multiple_choice = json_bool(json_field(deck, "mc"@)) == Some(true);
            let unshuffled = json_bool(json_field(st, "shuffle"@)) == Some(false);
            let loaded = json_bool(json_field(report, "isLoaded"@)) == Some(true);
            let ranged_start = json_get(deck, "startIndex"@) matches Some(x) && json_u64(x) != Some(0u64);
            let ranged_end = json_get(deck, "endIndex"@) matches Some(x) && json_u64(x) != Some(0u64);
            &&& multiple_choice ==> p.0
            &&& unshuffled ==> p.0
            &&& loaded ==> p.0
            &&& ranged_start ==> p.0
            &&& ranged_end ==> p.0
            &&& p.0 ==> (multiple_choice || unshuffled || loaded || ranged_start || ranged_end)
            &&& p.1 <==> (score != limit || limit < settings.0)
            &&& p.2 <==> players > 1
            &&& p.3 <==> time > settings.1
            &&& settings.3 == "any"@ ==> !p.4
            &&& settings.3 != "any"@ ==> (p.4 <==> (font != settings.3 || size != settings.2))
            &&& (limit <= i64::MAX && questions <= i64::MAX) ==> (p.5 <==> (questions < limit || questions
                > limit + settings.5))
        }),
{
}

} // verus!
