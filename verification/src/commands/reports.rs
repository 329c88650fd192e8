//! What the bot decides when the Kotoba quiz bot posts that a game ended:
//! which report to fetch, whether the report shows a passed rank quiz, and
//! which roles to swap and what to announce. The fetching, the role
//! changes and the messages themselves are done by the caller between
//! these steps.
use vstd::prelude::*;
use vstd::hash_map::StringHashMap;
use crate::commands::env_variables::{QuizSettings, KOTOBA_API_URL, KOTOBA_BOT_ID, settings_view};
use crate::commands::levelup::{
    REPORT_PATTERN, current_next_rank, decks_are_keyable, held_rank_index, lemma_held_index_is_last, lemma_no_rank_held, decks_keyable, first_capture, get_current_next_rank,
    get_quiz_key, get_quiz_predicates, lemma_next_rank_is_one_up, opt_text, quiz_key, quiz_predicates,
    quiz_report_is_readable, quiz_report_readable, report_capture_is,
};
use crate::json::{JsonValue, field, field_at, json_array, json_at, json_field, json_str, json_u64};
use crate::text::{contains_str, contains_text, decimal, fold_join, join_pieces, parse_u64, parse_u64_spec, push_decimal, texts};

verus! {

/// A message embed as the bot reads it: its title and the values of its
/// fields.
pub struct Embed {
    pub title: Option<String>,
    pub field_values: Vec<String>,
}

/// What a Kotoba embed title says when a game has ended.
pub const GAME_ENDED: &'static str = "Ended";

/// The link text of a field that points to a game report.
pub const REPORT_LINK: &'static str = "[View a report for this game]";

/// What the bot says when the last rank quiz was failed.
pub const FINAL_QUIZ_TAUNT: &'static str = "馬鹿だねぇ。断言しよう！　今のお前が私に勝つことは不可能だ。\nお前の背中に四季の扉がある限り、勝負など茶番でしか無い。";

/// What the bot says when it may not grant the next rank role.
pub const NO_PERMISSION: &'static str = "Não possuo permissão para te dar o cargo do próximo nível. Entre em contato com um moderador.";

/// The embed announces an ended game (an embed without title does not).
pub open spec fn embed_ended(e: Embed) -> bool {
    match e.title {
        Some(t) => contains_text(t@, GAME_ENDED@),
        None => false,
    }
}

/// The field values that link to a game report, in order.
pub open spec fn report_values(values: Seq<Seq<char>>) -> Seq<Seq<char>>
    decreases values.len(),
{
    if values.len() == 0 {
        Seq::empty()
    } else {
        let rest = report_values(values.drop_last());
        if contains_text(values.last(), REPORT_LINK@) {
            rest.push(values.last())
        } else {
            rest
        }
    }
}

/// The report fields of the ended-game embeds, in order.
pub open spec fn report_fields(embeds: Seq<Embed>) -> Seq<Seq<char>>
    decreases embeds.len(),
{
    if embeds.len() == 0 {
        Seq::empty()
    } else {
        report_fields(embeds.drop_last()) + if embed_ended(embeds.last()) {
            report_values(texts(embeds.last().field_values@))
        } else {
            Seq::empty()
        }
    }
}

/// The values of the fields that link to a game report, in the embeds of a
/// message by `author_id` that announce an ended game. Only messages of the
/// Kotoba bot are read.
pub fn report_field_values(author_id: u64, embeds: &[Embed]) -> (r: Vec<String>)
    ensures
        texts(r@) == if author_id == KOTOBA_BOT_ID { report_fields(embeds@) } else { Seq::empty() },
{
    let mut r: Vec<String> = Vec::new();
    if author_id != KOTOBA_BOT_ID {
        assert(texts(r@) =~= Seq::empty());
        return r;
    }
    let mut i: usize = 0;
    while i < embeds.len()
        invariant
            i <= embeds.len(),
            texts(r@) == report_fields(embeds@.take(i as int)),
        decreases embeds.len() - i,
    {
        assert(embeds@.take(i + 1).drop_last() =~= embeds@.take(i as int));
        let e = &embeds[i];
        let ended = match &e.title {
            Some(t) => contains_str(t.as_str(), GAME_ENDED),
            None => false,
        };
        let ghost before = texts(r@);
        if ended {
            let mut k: usize = 0;
            while k < e.field_values.len()
                invariant
                    k <= e.field_values.len(),
                    texts(r@) == before + report_values(texts(e.field_values@.take(k as int))),
                decreases e.field_values.len() - k,
            {
                assert(texts(e.field_values@.take(k + 1)).drop_last() =~= texts(e.field_values@.take(k as int)));
                assert(texts(e.field_values@.take(k + 1)).last() == e.field_values@[k as int]@);
                if contains_str(e.field_values[k].as_str(), REPORT_LINK) {
                    let ghost old_r = r@;
                    r.push(e.field_values[k].clone());
                    assert(texts(r@) =~= texts(old_r).push(e.field_values@[k as int]@));
                    assert(texts(r@) =~= before + report_values(texts(e.field_values@.take(k + 1))));
                } else {
                    assert(texts(r@) =~= before + report_values(texts(e.field_values@.take(k + 1))));
                }
                k = k + 1;
            }
            assert(e.field_values@.take(e.field_values.len() as int) =~= e.field_values@);
        } else {
            assert(texts(r@) =~= before + Seq::empty());
        }
        i = i + 1;
    }
    assert(embeds@.take(embeds.len() as int) =~= embeds@);
    r
}

/// The address of the game report that a report field links to: the
/// report API followed by the id that `REPORT_PATTERN` captures. `None`
/// when the field holds no report id.
pub fn report_api_url(field_value: &str) -> (r: Option<String>)
    ensures
        match r {
            Some(url) => exists|id: Seq<char>| report_capture_is(field_value@, Some(id)) && url@ == KOTOBA_API_URL@ + id,
            None => report_capture_is(field_value@, None),
        },
{
    match first_capture(REPORT_PATTERN, field_value) {
        Some(id) => {
            let mut url = KOTOBA_API_URL.to_owned();
            url.append(id.as_str());
            Some(url)
        },
        None => None,
    }
}

/// What a game report says of its rank quiz.
#[derive(Clone, Copy, Debug, PartialEq, Eq, Structural)]
pub enum ReportVerdict {
    /// The decks are not a rank quiz.
    Unranked,
    /// The rank quiz was not passed; `taunt` when it was the last rank quiz.
    Failed { taunt: bool },
    /// The rank quiz was passed: it grants `next_rank` to `participant_id`.
    Passed { next_rank: u64, participant_id: u64 },
}

/// `report["participants"][0]["discordUser"]["id"]`.
pub open spec fn participant_id_field(report: JsonValue) -> JsonValue {
    json_field(json_field(json_at(json_field(report, "participants"@), 0), "discordUser"@), "id"@)
}

/// Some quiz predicate holds: the quiz was not passed.
pub open spec fn quiz_failed(p: (bool, bool, bool, bool, bool, bool)) -> bool {
    p.0 || p.1 || p.2 || p.3 || p.4 || p.5
}

/// The verdict on a report, or `None` where the report cannot be judged:
/// its decks have no quiz key, the quiz is a rank quiz but the report
/// lacks a field its predicates read, the failed quiz cannot be compared
/// with the last quiz id (there is none), or the passed quiz's participant
/// id is not a `u64`.
pub open spec fn report_verdict(report: JsonValue, rank_quizzes: Map<Seq<char>, QuizSettings>, quiz_ids: Seq<Seq<char>>) -> Option<ReportVerdict> {
    let decks = json_field(report, "decks"@);
    if !decks_keyable(decks) {
        None
    } else if !rank_quizzes.contains_key(quiz_key(decks)) {
        Some(ReportVerdict::Unranked)
    } else if !quiz_report_readable(report) {
        None
    } else {
        let settings = rank_quizzes[quiz_key(decks)];
        if quiz_failed(quiz_predicates(report, settings_view(settings))) {
            if quiz_ids.len() == 0 {
                None
            } else {
                Some(ReportVerdict::Failed { taunt: quiz_key(decks) == quiz_ids.last() })
            }
        } else {
            match json_str(participant_id_field(report)) {
                Some(t) => match parse_u64_spec(t) {
                    Some(pid) => Some(ReportVerdict::Passed { next_rank: settings.4, participant_id: pid }),
                    None => None,
                },
                None => None,
            }
        }
    }
}

/// Judges a game report against the rank quizzes (keyed by quiz id);
/// `quiz_ids` are the rank quiz ids in rank order.
pub fn judge_report(report: &JsonValue, rank_quizzes: &StringHashMap<QuizSettings>, quiz_ids: &[String]) -> (r: Option<ReportVerdict>)
    ensures
        r == report_verdict(*report, rank_quizzes@, texts(quiz_ids@)),
{
    let decks = match report.get("decks") {
        Some(d) => d,
        None => return None,
    };
    if !decks_are_keyable(decks) {
        return None;
    }
    let key = get_quiz_key(decks);
    let settings = match rank_quizzes.get(key.as_str()) {
        Some(s) => s,
        None => return Some(ReportVerdict::Unranked),
    };
    if !quiz_report_is_readable(report) {
        return None;
    }
    let p = get_quiz_predicates(report, settings);
    if p.0 || p.1 || p.2 || p.3 || p.4 || p.5 {
        if quiz_ids.len() == 0 {
            return None;
        }
        let taunt = key == quiz_ids[quiz_ids.len() - 1];
        return Some(ReportVerdict::Failed { taunt });
    }
    let top = Some(report);
    let id_field = field(field(field_at(field(top, "participants"), 0), "discordUser"), "id");
    let id_text = match id_field {
        Some(v) => match v.as_str() {
            Some(t) => t,
            None => return None,
        },
        None => return None,
    };
    match parse_u64(id_text.as_str()) {
        Some(pid) => Some(ReportVerdict::Passed { next_rank: settings.4, participant_id: pid }),
        None => None,
    }
}

/// What to do with a member after a passed rank quiz.
pub enum Promotion {
    /// The quiz does not lead to the member's next rank: nothing changes.
    Stay,
    /// Swap `remove_role` for `add_role` and announce it. The announcement
    /// is `None` when the new rank has no name; the bot gives up after
    /// swapping the roles.
    Promote { remove_role: u64, add_role: u64, announcement: Option<String> },
    /// The rank roles or the report's deck names cannot be read.
    Malformed,
}

/// Every deck of the report has a string `name`.
pub open spec fn deck_names_have_text(items: Seq<JsonValue>) -> bool {
    forall|i: int| 0 <= i < items.len() ==> (#[trigger] json_str(json_field(items[i], "name"@))) is Some
}

/// The report's decks are an array of named decks.
pub open spec fn deck_names_readable(report: JsonValue) -> bool {
    match json_array(json_field(report, "decks"@)) {
        Some(items) => deck_names_have_text(items),
        None => false,
    }
}

/// The names of the report's decks, joined by `, `.
pub open spec fn quiz_name(report: JsonValue) -> Seq<char> {
    fold_join(
        json_array(json_field(report, "decks"@)).unwrap().map_values(|d: JsonValue| json_str(json_field(d, "name"@)).unwrap()),
        ", "@,
    )
}

/// The position of the first `x` in `s` (`s.len()` when there is none).
pub open spec fn first_position(s: Seq<u64>, x: u64) -> int
    decreases s.len(),
{
    if s.len() == 0 {
        0
    } else if s[0] == x {
        0
    } else {
        1 + first_position(s.drop_first(), x)
    }
}

/// The announcement for a member who reached the highest rank.
pub open spec fn top_rank_announcement(participant_id: u64, name: Seq<char>) -> Seq<char> {
    "<@!"@ + decimal(participant_id as nat) + "> passou no(s) quiz(es): "@ + name
        + "!\nやられたー！　さすが伯刺西爾の大将ね。この私の攻撃を避けきるなんて。"@
}

/// The announcement for a member who reached the rank called `rank_name`.
pub open spec fn rank_announcement(participant_id: u64, name: Seq<char>, rank_name: Seq<char>) -> Seq<char> {
    "<@!"@ + decimal(participant_id as nat) + "> passou no(s) quiz(es): "@ + name + ", e agora é um(a) "@
        + rank_name + "! Parabéns!\nO próximo nível pode ser verificado através do comando `%levelup`."@
}

/// The announcement of a promotion to `next`: the top-rank text for the
/// last rank role, else the text with the name of the rank at the first
/// position of `next` among the rank roles after the first. `None` when
/// that rank has no name.
pub open spec fn promotion_announcement(
    participant_id: u64,
    name: Seq<char>,
    next: u64,
    rank_roles: Seq<u64>,
    rank_names: Seq<Seq<char>>,
) -> Option<Seq<char>> {
    let pos = first_position(rank_roles.drop_first(), next);
    if next == rank_roles.last() {
        Some(top_rank_announcement(participant_id, name))
    } else if pos < rank_roles.len() - 1 && pos < rank_names.len() {
        Some(rank_announcement(participant_id, name, rank_names[pos]))
    } else {
        None
    }
}

/// The promotion decision: a member whose next rank is the rank the quiz
/// grants, and who does not hold it yet, swaps their rank role for it.
pub open spec fn promotion_matches(
    p: Promotion,
    role_ids: Seq<u64>,
    next_rank: u64,
    participant_id: u64,
    report: JsonValue,
    rank_roles: Seq<u64>,
    rank_names: Seq<Seq<char>>,
) -> bool {
    if rank_roles.len() < 2 {
        p is Malformed
    } else {
        let (current, next) = current_next_rank(role_ids, rank_roles);
        if !(next == next_rank && current != next) {
            p is Stay
        } else if !deck_names_readable(report) {
            p is Malformed
        } else {
            match p {
                Promotion::Promote { remove_role, add_role, announcement } => {
                    &&& remove_role == current
                    &&& add_role == next
                    &&& opt_text(announcement) == promotion_announcement(
                        participant_id,
                        quiz_name(report),
                        next,
                        rank_roles,
                        rank_names,
                    )
                },
                _ => false,
            }
        }
    }
}

/// The names of the report's decks, joined by `, ` (`None` when a deck has
/// no name).
fn read_quiz_name(report: &JsonValue) -> (r: Option<String>)
    ensures
        match r {
            Some(n) => deck_names_readable(*report) && n@ == quiz_name(*report),
            None => !deck_names_readable(*report),
        },
{
    let items = match report.get("decks") {
        Some(d) => match d.as_array() {
            Some(items) => items,
            None => return None,
        },
        None => return None,
    };
    let ghost spec_items = items@;
    let mut names: Vec<String> = Vec::new();
    let mut i: usize = 0;
    while i < items.len()
        invariant
            json_array(json_field(*report, "decks"@)) == Some(spec_items),
            items@ == spec_items,
            i <= items.len(),
            names@.len() == i,
            forall|j: int| 0 <= j < i ==> (#[trigger] json_str(json_field(spec_items[j], "name"@))) is Some,
            forall|j: int| 0 <= j < i ==> Some((#[trigger] names@[j])@) == json_str(json_field(spec_items[j], "name"@)),
        decreases items.len() - i,
    {
        let name = match items[i].get("name") {
            Some(v) => match v.as_str() {
                Some(t) => t,
                None => {
                    assert(!deck_names_have_text(spec_items));
                    return None;
                },
            },
            None => {
                assert(json_str(json_field(spec_items[i as int], "name"@)) is None);
                assert(!deck_names_have_text(spec_items));
                return None;
            },
        };
        names.push(name.clone());
        i = i + 1;
    }
    assert(texts(names@) =~= spec_items.map_values(|d: JsonValue| json_str(json_field(d, "name"@)).unwrap()));
    Some(join_pieces(names.as_slice(), ", "))
}

/// The position of the first `x` in `s`.
pub fn find_position(s: &[u64], x: u64) -> (r: usize)
    ensures
        r == first_position(s@, x),
        r <= s@.len(),
        r < s@.len() ==> s@[r as int] == x,
{
    let mut i: usize = 0;
    while i < s.len()
        invariant
            i <= s.len(),
            forall|j: int| 0 <= j < i ==> s@[j] != x,
        decreases s.len() - i,
    {
        if s[i] == x {
            proof { lemma_first_position_at(s@, x, i as int); }
            return i;
        }
        i = i + 1;
    }
    proof { lemma_first_position_at(s@, x, s@.len() as int); }
    i
}

/// The first position of `x` is `i` when `x` is absent before `i` and at
/// `i` (or `i` is the end).
pub proof fn lemma_first_position_at(s: Seq<u64>, x: u64, i: int)
    requires
        0 <= i <= s.len(),
        forall|j: int| 0 <= j < i ==> s[j] != x,
        i < s.len() ==> s[i] == x,
    ensures
        first_position(s, x) == i,
    decreases i,
{
    if i > 0 {
        assert(s[0] != x);
        lemma_first_position_at(s.drop_first(), x, i - 1);
    }
}

/// Decides the promotion of a member with roles `role_ids` who passed a
/// rank quiz granting `next_rank`, and writes its announcement.
pub fn plan_promotion(
    role_ids: &[u64],
    next_rank: u64,
    participant_id: u64,
    report: &JsonValue,
    rank_roles: &[u64],
    rank_names: &[String],
) -> (r: Promotion)
    ensures
        promotion_matches(r, role_ids@, next_rank, participant_id, *report, rank_roles@, texts(rank_names@)),
        r matches Promotion::Promote { remove_role, add_role, .. } ==> exists|i: int|
            0 <= i < rank_roles@.len() - 1 && remove_role == rank_roles@[i] && add_role == #[trigger] rank_roles@[i + 1],
{
    if rank_roles.len() < 2 {
        return Promotion::Malformed;
    }
    let (current, next) = get_current_next_rank(role_ids, rank_roles);
    if !(next == next_rank && current != next) {
        return Promotion::Stay;
    }
    proof { lemma_next_rank_is_one_up(role_ids@, rank_roles@); }
    let name = match read_quiz_name(report) {
        Some(n) => n,
        None => return Promotion::Malformed,
    };
    let mut text = "<@!".to_owned();
    push_decimal(&mut text, participant_id);
    text.append("> passou no(s) quiz(es): ");
    text.append(name.as_str());
    let announcement = if next == rank_roles[rank_roles.len() - 1] {
        text.append("!\nやられたー！　さすが伯刺西爾の大将ね。この私の攻撃を避けきるなんて。");
        Some(text)
    } else {
        let pos = find_position(vstd::slice::slice_subrange(rank_roles, 1, rank_roles.len()), next);
        assert(rank_roles@.subrange(1, rank_roles@.len() as int) =~= rank_roles@.drop_first());
        if pos < rank_roles.len() - 1 && pos < rank_names.len() {
            text.append(", e agora é um(a) ");
            text.append(rank_names[pos].as_str());
            text.append("! Parabéns!\nO próximo nível pode ser verificado através do comando `%levelup`.");
            Some(text)
        } else {
            None
        }
    };
    Promotion::Promote { remove_role: current, add_role: next, announcement }
}

/// A verdict is read off the report's quiz: a passed verdict comes only
/// from a rank quiz none of whose six predicates holds, and grants that
/// quiz's rank to the participant whose id the report gives; a failed one
/// only from a rank quiz one of whose predicates holds, with the taunt
/// exactly for the last quiz id; an unranked one only from decks that are
/// no rank quiz.
pub proof fn lemma_verdict_meaning(report: JsonValue, rank_quizzes: Map<Seq<char>, QuizSettings>, quiz_ids: Seq<Seq<char>>)
    ensures
        ({
            let key = quiz_key(json_field(report, "decks"@));
            let p = quiz_predicates(report, settings_view(rank_quizzes[key]));
            let no_failure = !p.0 && !p.1 && !p.2 && !p.3 && !p.4 && !p.5;
            &&& report_verdict(report, rank_quizzes, quiz_ids) matches Some(ReportVerdict::Passed { next_rank, participant_id })
                ==> {
                &&& rank_quizzes.contains_key(key)
                &&& quiz_report_readable(report)
                &&& no_failure
                &&& next_rank == rank_quizzes[key].4
                &&& json_str(participant_id_field(report)) matches Some(t) && parse_u64_spec(t) == Some(participant_id)
            }
            &&& report_verdict(report, rank_quizzes, quiz_ids) matches Some(ReportVerdict::Failed { taunt }) ==> {
                &&& rank_quizzes.contains_key(key)
                &&& quiz_report_readable(report)
                &&& !no_failure
                &&& quiz_ids.len() > 0
                &&& taunt == (key == quiz_ids.last())
            }
            &&& report_verdict(report, rank_quizzes, quiz_ids) == Some(ReportVerdict::Unranked) ==> !rank_quizzes.contains_key(key)
            &&& (decks_keyable(json_field(report, "decks"@)) && rank_quizzes.contains_key(key) && quiz_report_readable(report)
                && no_failure) ==> !(report_verdict(report, rank_quizzes, quiz_ids) matches Some(ReportVerdict::Failed { .. }))
        }),
{
}

/// A rank quiz with more questions than its score limit plus its allowed
/// misses (or fewer than the score limit) is never passed.
pub proof fn lemma_missed_quiz_never_passes(report: JsonValue, rank_quizzes: Map<Seq<char>, QuizSettings>, quiz_ids: Seq<Seq<char>>)
    requires
        rank_quizzes.contains_key(quiz_key(json_field(report, "decks"@))),
        quiz_report_readable(report),
        ({
            let settings = rank_quizzes[quiz_key(json_field(report, "decks"@))];
            let limit = json_u64(json_field(json_field(report, "settings"@), "scoreLimit"@)).unwrap();
            let questions = json_array(json_field(report, "questions"@)).unwrap().len();
            &&& limit <= i64::MAX
            &&& questions <= i64::MAX
            &&& (questions > limit + settings.5 || questions < limit)
        }),
    ensures
        !(report_verdict(report, rank_quizzes, quiz_ids) matches Some(ReportVerdict::Passed { .. })),
{
    let settings = rank_quizzes[quiz_key(json_field(report, "decks"@))];
    crate::commands::levelup::lemma_quiz_predicates_meaning(report, settings_view(settings));
    lemma_verdict_meaning(report, rank_quizzes, quiz_ids);
}

/// A promotion grants exactly the rank the passed quiz grants, one rank
/// above the member's own; a member whose next rank is not the granted rank
/// (or who holds the highest rank) stays; a member whose next rank is the
/// granted one is promoted when the decks are named.
pub proof fn lemma_promotion_grants_quiz_rank(
    p: Promotion,
    role_ids: Seq<u64>,
    next_rank: u64,
    participant_id: u64,
    report: JsonValue,
    rank_roles: Seq<u64>,
    rank_names: Seq<Seq<char>>,
    i: int,
)
    requires
        promotion_matches(p, role_ids, next_rank, participant_id, report, rank_roles, rank_names),
        rank_roles.len() >= 2,
        0 <= i < rank_roles.len(),
        i == 0 || role_ids.contains(rank_roles[i]),
        forall|j: int| i < j < rank_roles.len() ==> !role_ids.contains(#[trigger] rank_roles[j]),
    ensures
        p matches Promotion::Promote { remove_role, add_role, .. } ==> add_role == next_rank && remove_role
            == rank_roles[i] && add_role == rank_roles[i + 1] && i + 1 < rank_roles.len(),
        (i + 1 == rank_roles.len() || rank_roles[i + 1] != next_rank) ==> p is Stay,
        (i + 1 < rank_roles.len() && rank_roles[i + 1] == next_rank && rank_roles[i] != next_rank
            && deck_names_readable(report)) ==> p is Promote,
{
    if i == 0 && !role_ids.contains(rank_roles[0]) {
        lemma_no_rank_held(role_ids, rank_roles, rank_roles.len());
    } else {
        lemma_held_index_is_last(role_ids, rank_roles, i, rank_roles.len());
    }
    assert(held_rank_index(role_ids, rank_roles, rank_roles.len()) == i);
}

/// The report values are exactly the values that hold the report link, in
/// order.
pub proof fn lemma_report_values_are_link_values(values: Seq<Seq<char>>)
    ensures
        report_values(values) == values.filter(|v: Seq<char>| contains_text(v, "[View a report for this game]"@)),
    decreases values.len(),
{
    broadcast use vstd::seq_lib::group_filter_ensures;

    reveal(Seq::filter);
    if values.len() > 0 {
        lemma_report_values_are_link_values(values.drop_last());
    }
}

/// The report fields of a list of embeds: none for no embeds, and each
/// embed adds, in order, every one of its field values that holds the
/// report link, when its title says the game ended.
pub proof fn lemma_report_fields_meaning(embeds: Seq<Embed>, e: Embed)
    ensures
        report_fields(Seq::<Embed>::empty()) == Seq::<Seq<char>>::empty(),
        report_fields(embeds.push(e)) == report_fields(embeds) + if (e.title matches Some(t) && contains_text(
            t@,
            "Ended"@,
        )) {
            texts(e.field_values@).filter(|v: Seq<char>| contains_text(v, "[View a report for this game]"@))
        } else {
            Seq::empty()
        },
{
    assert(embeds.push(e).drop_last() =~= embeds);
    lemma_report_values_are_link_values(texts(e.field_values@));
}

/// The first position of `x` in `s` is where `x` first occurs, or the end.
pub proof fn lemma_first_position_meaning(s: Seq<u64>, x: u64)
    ensures
        0 <= first_position(s, x) <= s.len(),
        first_position(s, x) < s.len() ==> s[first_position(s, x)] == x,
        forall|k: int| 0 <= k < first_position(s, x) ==> s[k] != x,
    decreases s.len(),
{
    if s.len() > 0 && s[0] != x {
        lemma_first_position_meaning(s.drop_first(), x);
        assert forall|k: int| 0 <= k < first_position(s, x) implies s[k] != x by {
            if k > 0 {
                assert(s[k] == s.drop_first()[k - 1]);
            }
        }
    }
}

/// With distinct rank roles, a promotion of a member at rank `i` to the
/// rank after it, below the highest rank, is announced with the name of
/// that rank (`rank_names[i]`) when it has one; a promotion to the highest
/// rank gets the top-rank announcement.
pub proof fn lemma_promotion_announces_new_rank(
    p: Promotion,
    role_ids: Seq<u64>,
    next_rank: u64,
    participant_id: u64,
    report: JsonValue,
    rank_roles: Seq<u64>,
    rank_names: Seq<Seq<char>>,
    i: int,
)
    requires
        promotion_matches(p, role_ids, next_rank, participant_id, report, rank_roles, rank_names),
        rank_roles.len() >= 2,
        forall|a: int, b: int| 0 <= a < b < rank_roles.len() ==> rank_roles[a] != rank_roles[b],
        0 <= i < rank_roles.len(),
        i == 0 || role_ids.contains(rank_roles[i]),
        forall|j: int| i < j < rank_roles.len() ==> !role_ids.contains(#[trigger] rank_roles[j]),
        p is Promote,
    ensures
        p matches Promotion::Promote { announcement, .. } ==> {
            &&& i + 2 < rank_roles.len() && i < rank_names.len() ==> opt_text(announcement) == Some(
                rank_announcement(participant_id, quiz_name(report), rank_names[i]),
            )
            &&& i + 2 < rank_roles.len() && i >= rank_names.len() ==> announcement is None
            &&& i + 2 == rank_roles.len() ==> opt_text(announcement) == Some(
                top_rank_announcement(participant_id, quiz_name(report)),
            )
        },
{
    lemma_promotion_grants_quiz_rank(p, role_ids, next_rank, participant_id, report, rank_roles, rank_names, i);
    let rest = rank_roles.drop_first();
    lemma_first_position_meaning(rest, rank_roles[i + 1]);
    let f = first_position(rest, rank_roles[i + 1]);
    assert(rest[i] == rank_roles[i + 1]);
    assert(f == i) by {
        if f < i {
            assert(rest[f] == rank_roles[f + 1]);
        }
    }
    if i + 2 < rank_roles.len() {
        assert(rank_roles.last() == rank_roles[rank_roles.len() - 1]);
        assert(rank_roles[i + 1] != rank_roles[rank_roles.len() - 1]);
    }
}

} // verus!
