//! The bot's informational commands: `%niveis` lists the quiz of every
//! level, `%tabela` counts the members of every rank.
use vstd::prelude::*;
use crate::commands::env_variables::{command_phrases, get_command_phrases};
use crate::commands::reports::{find_position, first_position, lemma_first_position_meaning};
use crate::text::{decimal, fold_join, join_pieces, push_decimal, texts};

verus! {

/// The text of `%niveis`: the command phrase of every level (without the
/// highest-rank phrase), one per line.
pub open spec fn niveis_text(names: Seq<Seq<char>>, commands: Seq<Seq<char>>) -> Seq<char> {
    fold_join(command_phrases(names, commands).drop_last(), "\n"@)
}

/// The answer to `%niveis`.
pub fn niveis_message(rank_names: &[String], quiz_commands: &[String]) -> (r: String)
    ensures
        r@ == niveis_text(texts(rank_names@), texts(quiz_commands@)),
{
    let phrases = get_command_phrases(rank_names, quiz_commands);
    assert(phrases@.len() == texts(phrases@).len());
    assert(phrases@.len() >= 1);
    let levels = vstd::slice::slice_subrange(phrases.as_slice(), 0, phrases.len() - 1);
    assert(texts(levels@) =~= texts(phrases@).drop_last());
    join_pieces(levels, "\n")
}

/// How many of `roles` count for rank `j` of `ranks` (the rank at the first
/// position of the role among `ranks`).
pub open spec fn count_in(roles: Seq<u64>, ranks: Seq<u64>, j: int) -> nat
    decreases roles.len(),
{
    if roles.len() == 0 {
        0
    } else {
        count_in(roles.drop_last(), ranks, j) + if first_position(ranks, roles.last()) == j {
            1nat
        } else {
            0nat
        }
    }
}

/// How many role entries of all members count for rank `j` of `ranks`.
pub open spec fn tally(members: Seq<Vec<u64>>, ranks: Seq<u64>, j: int) -> nat
    decreases members.len(),
{
    if members.len() == 0 {
        0
    } else {
        tally(members.drop_last(), ranks, j) + count_in(members.last()@, ranks, j)
    }
}

/// Every rank's count fits in the `u16` the bot counts in.
pub open spec fn tallies_fit(members: Seq<Vec<u64>>, ranks: Seq<u64>) -> bool {
    forall|j: int| 0 <= j < ranks.len() ==> #[trigger] tally(members, ranks, j) <= u16::MAX
}

/// The line of `%tabela` for one rank.
pub open spec fn tabela_line(name: Seq<char>, count: nat) -> Seq<char> {
    name + ": "@ + decimal(count)
}

/// The text of `%tabela` for the members' roles: one line per rank role
/// after the first, with the rank's name and how many members hold it.
/// `None` where the bot cannot answer: there are no rank roles, a count
/// does not fit in a `u16`, or a rank has no name.
pub open spec fn tabela_text(members: Seq<Vec<u64>>, rank_roles: Seq<u64>, names: Seq<Seq<char>>) -> Option<Seq<char>> {
    if rank_roles.len() == 0 {
        None
    } else {
        let ranks = rank_roles.drop_first();
        if !tallies_fit(members, ranks) || names.len() < ranks.len() {
            None
        } else {
            Some(fold_join(Seq::new(ranks.len(), |j: int| tabela_line(names[j], tally(members, ranks, j))), "\n"@))
        }
    }
}

/// A prefix of the roles counts no more than all of them.
proof fn lemma_count_in_prefix(roles: Seq<u64>, ranks: Seq<u64>, j: int, k: int)
    requires
        0 <= k <= roles.len(),
    ensures
        count_in(roles.take(k), ranks, j) <= count_in(roles, ranks, j),
    decreases roles.len() - k,
{
    if k < roles.len() {
        lemma_count_in_prefix(roles, ranks, j, k + 1);
        assert(roles.take(k + 1).drop_last() =~= roles.take(k));
    } else {
        assert(roles.take(k) =~= roles);
    }
}

/// The members before `a`, and member `a`, count no more than all members.
proof fn lemma_tally_prefix(members: Seq<Vec<u64>>, ranks: Seq<u64>, j: int, a: int)
    requires
        0 <= a < members.len(),
    ensures
        tally(members.take(a), ranks, j) + count_in(members[a]@, ranks, j) <= tally(members, ranks, j),
    decreases members.len() - a,
{
    assert(members.take(a + 1).drop_last() =~= members.take(a));
    if a + 1 < members.len() {
        lemma_tally_prefix(members, ranks, j, a + 1);
    } else {
        assert(members.take(a + 1) =~= members);
    }
}

/// The member counts of `%tabela`, or `None` where a count overflows.
fn count_rank_members(member_roles: &[Vec<u64>], ranks: &[u64]) -> (r: Option<Vec<u16>>)
    ensures
        match r {
            Some(counts) => tallies_fit(member_roles@, ranks@) && counts@.len() == ranks@.len() && forall|j: int|
                0 <= j < ranks@.len() ==> counts@[j] == tally(member_roles@, ranks@, j),
            None => !tallies_fit(member_roles@, ranks@),
        },
{
    let mut counts: Vec<u16> = Vec::new();
    let mut z: usize = 0;
    while z < ranks.len()
        invariant
            z <= ranks.len(),
            counts@.len() == z,
            forall|j: int| 0 <= j < z ==> counts@[j] == 0,
        decreases ranks.len() - z,
    {
        counts.push(0);
        z = z + 1;
    }
    let mut a: usize = 0;
    while a < member_roles.len()
        invariant
            a <= member_roles.len(),
            counts@.len() == ranks@.len(),
            forall|j: int| 0 <= j < ranks@.len() ==> counts@[j] == tally(member_roles@.take(a as int), ranks@, j),
        decreases member_roles.len() - a,
    {
        let roles = &member_roles[a];
        let mut b: usize = 0;
        while b < roles.len()
            invariant
                a < member_roles.len(),
                roles@ == member_roles@[a as int]@,
                b <= roles.len(),
                counts@.len() == ranks@.len(),
                forall|j: int|
                    0 <= j < ranks@.len() ==> counts@[j] == tally(member_roles@.take(a as int), ranks@, j)
                        + count_in(roles@.take(b as int), ranks@, j),
            decreases roles.len() - b,
        {
            assert(roles@.take(b + 1).drop_last() =~= roles@.take(b as int));
            let pos = find_position(ranks, roles[b]);
            if pos < ranks.len() {
                if counts[pos] == 65535 {
                    proof {
                        let j = pos as int;
                        lemma_count_in_prefix(roles@, ranks@, j, b + 1);
                        lemma_tally_prefix(member_roles@, ranks@, j, a as int);
                        assert(tally(member_roles@, ranks@, j) > u16::MAX);
                    }
                    return None;
                }
                counts.set(pos, counts[pos] + 1);
            }
            b = b + 1;
        }
        assert(roles@.take(roles.len() as int) =~= roles@);
        assert(member_roles@.take(a + 1).drop_last() =~= member_roles@.take(a as int));
        a = a + 1;
    }
    assert(member_roles@.take(member_roles.len() as int) =~= member_roles@);
    assert forall|j: int| 0 <= j < ranks@.len() implies #[trigger] tally(member_roles@, ranks@, j) <= u16::MAX by {
        assert(counts@[j] == tally(member_roles@, ranks@, j));
    }
    Some(counts)
}

/// The answer to `%tabela` for the roles of every member (see
/// `tabela_text`).
pub fn tabela_message(member_roles: &[Vec<u64>], rank_roles: &[u64], rank_names: &[String]) -> (r: Option<String>)
    ensures
        opt_string(r) == tabela_text(member_roles@, rank_roles@, texts(rank_names@)),
{
    if rank_roles.len() == 0 {
        return None;
    }
    let ranks = vstd::slice::slice_subrange(rank_roles, 1, rank_roles.len());
    assert(ranks@ =~= rank_roles@.drop_first());
    let counts = match count_rank_members(member_roles, ranks) {
        Some(c) => c,
        None => return None,
    };
    if rank_names.len() < ranks.len() {
        return None;
    }
    let ghost names = texts(rank_names@);
    let mut lines: Vec<String> = Vec::new();
    let mut i: usize = 0;
    while i < counts.len()
        invariant
            names == texts(rank_names@),
            counts@.len() == ranks@.len(),
            rank_names@.len() >= ranks@.len(),
            forall|j: int| 0 <= j < ranks@.len() ==> counts@[j] == tally(member_roles@, ranks@, j),
            i <= counts.len(),
            lines@.len() == i,
            forall|j: int| 0 <= j < i ==> (#[trigger] lines@[j])@ == tabela_line(names[j], tally(member_roles@, ranks@, j)),
        decreases counts.len() - i,
    {
        let mut line = rank_names[i].clone();
        line.append(": ");
        push_decimal(&mut line, counts[i] as u64);
        lines.push(line);
        i = i + 1;
    }
    assert(texts(lines@) =~= Seq::new(ranks@.len(), |j: int| tabela_line(names[j], tally(member_roles@, ranks@, j))));
    Some(join_pieces(lines.as_slice(), "\n"))
}

/// The text of an optional string.
pub open spec fn opt_string(s: Option<String>) -> Option<Seq<char>> {
    match s {
        Some(x) => Some(x@),
        None => None,
    }
}

/// What the bot answers to a message: `Pong%` to `%ping`, nothing to
/// anything else.
pub fn ping_reply(content: &str) -> (r: Option<&'static str>)
    ensures
        r is Some <==> content@ == "%ping"@,
        r matches Some(reply) ==> reply@ == "Pong%"@,
{
    if content.to_owned() == "%ping".to_owned() {
        Some("Pong%")
    } else {
        None
    }
}

/// With distinct ranks, the role entries of one member count for rank `j`
/// as often as the member holds `ranks[j]`.
pub proof fn lemma_count_in_is_occurrences(roles: Seq<u64>, ranks: Seq<u64>, j: int)
    requires
        0 <= j < ranks.len(),
        forall|a: int, b: int| 0 <= a < b < ranks.len() ==> ranks[a] != ranks[b],
    ensures
        count_in(roles, ranks, j) == roles.to_multiset().count(ranks[j]),
    decreases roles.len(),
{
    broadcast use vstd::seq_lib::to_multiset_build;
    broadcast use vstd::multiset::group_multiset_axioms;

    if roles.len() == 0 {
        vstd::seq_lib::to_multiset_contains(roles, ranks[j]);
    } else {
        let x = roles.last();
        lemma_count_in_is_occurrences(roles.drop_last(), ranks, j);
        assert(roles =~= roles.drop_last().push(x));
        lemma_first_position_meaning(ranks, x);
        if x == ranks[j] {
            assert(first_position(ranks, x) == j) by {
                let f = first_position(ranks, x);
                if f < j {
                } else if f > j {
                    assert(ranks[j] != x);
                }
            }
        } else if first_position(ranks, x) == j {
            assert(ranks[j] == x);
        }
    }
}

/// The count of `%tabela` for rank `j` (with distinct ranks): zero for no
/// members, and each member adds how often they hold `ranks[j]`.
pub proof fn lemma_tally_counts_holders(members: Seq<Vec<u64>>, m: Vec<u64>, ranks: Seq<u64>, j: int)
    requires
        0 <= j < ranks.len(),
        forall|a: int, b: int| 0 <= a < b < ranks.len() ==> ranks[a] != ranks[b],
    ensures
        tally(Seq::<Vec<u64>>::empty(), ranks, j) == 0,
        tally(members.push(m), ranks, j) == tally(members, ranks, j) + m@.to_multiset().count(ranks[j]),
{
    assert(members.push(m).drop_last() =~= members);
    lemma_count_in_is_occurrences(m@, ranks, j);
}

} // verus!
