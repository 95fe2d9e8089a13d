//! The summaries of a season as the messages of a chat: a table of one line
//! for each player, cut into batches that each fit into one message.

use crate::order::{
    in_name_order, lemma_precedes_irreflexive, lemma_precedes_transitive,
    lemma_same_bytes_same_text, lists, lists_each_once, name_bytes, name_order, precedes,
    stands_at,
};
use crate::storage::summary::{all_totals_fit, is_summary_of, summarizes, PlayerSummary};
use crate::storage::{ClanStorage, ClanStorageView};
use crate::text::{ascii, count_digits, decimal, padded, push_padded, push_padded_u64};
use vstd::prelude::*;
use vstd::string::*;

verus! {

/// The number of characters that the lines of one batch may have together.
pub const BATCH_WIDTH: usize = 1800;

/// The width of the names that the head of the table is made for.
pub const HEAD_NAME_WIDTH: usize = 11;

/// `count` blanks.
pub open spec fn blanks(count: nat) -> Seq<char> {
    Seq::new(count, |i: int| ' ')
}

/// `text`, filled up with blanks behind it to `width` characters.
pub open spec fn left_aligned(text: Seq<char>, width: nat) -> Seq<char> {
    if text.len() >= width {
        text
    } else {
        text + blanks((width - text.len()) as nat)
    }
}

/// `number` in decimal, filled up with blanks before it to `width`
/// characters.
pub open spec fn right_aligned(number: nat, width: nat) -> Seq<char> {
    let digits = decimal(number);
    if digits.len() >= width {
        ascii(digits)
    } else {
        blanks((width - digits.len()) as nat) + ascii(digits)
    }
}

/// `number` in decimal.
pub open spec fn plain(number: nat) -> Seq<char> {
    ascii(padded(number, 1))
}

/// The line of one player: the name in a column of `width` characters, and
/// the four totals.
pub open spec fn summary_line(name: Seq<char>, summary: PlayerSummary, width: nat) -> Seq<char> {
    left_aligned(name, width) + "|  "@ + right_aligned(summary.cwl_stars as nat, 2) + " |   "@
        + right_aligned(summary.war_stars as nat, 2) + " | "@ + right_aligned(
        summary.raid_loot as nat,
        5,
    ) + " |    "@ + right_aligned(summary.games_score as nat, 2)
}

/// The head of the table, with `width` characters more for the names than
/// the head itself needs.
pub open spec fn head_line(width: nat) -> Seq<char> {
    "```Player Tag "@ + left_aligned(" "@, width) + "| CWL | Wars | Raids | Games"@
}

/// The rule under the head of the table.
pub open spec fn rule_line(padding_width: nat) -> Seq<char> {
    Seq::new(
        if padding_width >= HEAD_NAME_WIDTH {
            (40 + padding_width - HEAD_NAME_WIDTH) as nat
        } else {
            40
        },
        |i: int| '-',
    )
}

/// The width of the line of a player whose name and totals fill their
/// columns and no more.
pub open spec fn line_width(padding_width: nat) -> nat {
    padding_width + 28
}

/// How many players are shown in one batch.
pub open spec fn players_per_batch(padding_width: nat) -> nat {
    BATCH_WIDTH as nat / line_width(padding_width)
}

/// How many batches are written for `player_count` players.
pub open spec fn batch_count(player_count: nat, padding_width: nat) -> nat {
    player_count / players_per_batch(padding_width) + 1
}

/// The lines of the players, in the order in which they are given.
pub open spec fn summary_lines(summaries: Seq<(String, PlayerSummary)>, width: nat) -> Seq<
    Seq<char>,
> {
    Seq::new(summaries.len(), |i: int| summary_line(summaries[i].0@, summaries[i].1, width))
}

/// `lines`, each with a line break behind it.
pub open spec fn stacked(lines: Seq<Seq<char>>) -> Seq<char>
    decreases lines.len(),
{
    if lines.len() == 0 {
        Seq::empty()
    } else {
        stacked(lines.drop_last()) + lines.last() + "\n"@
    }
}

/// Where in `count` lines batch `batch` begins, with `per` lines in a batch.
pub open spec fn batch_start(batch: nat, per: nat, count: nat) -> nat {
    if batch * per <= count {
        batch * per
    } else {
        count
    }
}

/// The text of batch `batch`: the head, the rule, the lines of the players of
/// this batch, the time at which the summaries were taken, and which batch
/// of how many this is.
pub open spec fn batch_text(
    batch: nat,
    player_count: nat,
    header_padding_width: nat,
    padding_width: nat,
    summaries: Seq<(String, PlayerSummary)>,
    timestamp: u64,
) -> Seq<char> {
    let per = players_per_batch(padding_width);
    let lines = summary_lines(summaries, padding_width);
    let from = batch_start(batch, per, lines.len());
    let to = batch_start(batch + 1, per, lines.len());
    head_line(header_padding_width) + "\n"@ + rule_line(padding_width) + "\n"@ + stacked(
        lines.subrange(from as int, to as int),
    ) + "```"@ + "\nTimestamp: "@ + plain(timestamp as nat) + "\n"@ + plain(batch + 1) + "/"@
        + plain(batch_count(player_count, padding_width))
}

/// Appends `count` times the one character of `mark` to `out`.
fn push_repeated(out: &mut String, mark: &str, count: usize)
    requires
        mark@.len() == 1,
    ensures
        final(out)@ == old(out)@ + Seq::new(count as nat, |i: int| mark@[0]),
{
    let ghost before = out@;
    let mut i: usize = 0;
    assert(out@ =~= before + Seq::new(0, |i: int| mark@[0]));
    while i < count
        invariant
            i <= count,
            mark@.len() == 1,
            out@ == before + Seq::new(i as nat, |i: int| mark@[0]),
        decreases count - i,
    {
        out.append(mark);
        i = i + 1;
        assert(out@ =~= before + Seq::new(i as nat, |i: int| mark@[0]));
    }
}

/// Appends `text` to `out`, filled up with blanks behind it to `width`
/// characters.
fn push_left_aligned(out: &mut String, text: &str, width: usize)
    ensures
        final(out)@ == old(out)@ + left_aligned(text@, width as nat),
{
    let ghost before = out@;
    out.append(text);
    let length = text.unicode_len();
    if length < width {
        proof {
            reveal_strlit(" ");
        }
        push_repeated(out, " ", width - length);
        assert(out@ =~= before + left_aligned(text@, width as nat));
    }
}

/// Appends `number` to `out`, filled up with blanks before it to `width`
/// characters.
fn push_right_aligned(out: &mut String, number: usize, width: usize)
    ensures
        final(out)@ == old(out)@ + right_aligned(number as nat, width as nat),
{
    let ghost before = out@;
    let digits = count_digits(number);
    if digits < width {
        proof {
            reveal_strlit(" ");
        }
        push_repeated(out, " ", width - digits);
    }
    push_padded(out, number, 1);
    assert(padded(number as nat, 1) == decimal(number as nat));
    assert(out@ =~= before + right_aligned(number as nat, width as nat));
}

/// Appends the line of one player to `out`.
fn push_summary_line(out: &mut String, name: &str, summary: &PlayerSummary, width: usize)
    ensures
        final(out)@ == old(out)@ + summary_line(name@, *summary, width as nat),
{
    let ghost before = out@;
    push_left_aligned(out, name, width);
    out.append("|  ");
    push_right_aligned(out, summary.cwl_stars, 2);
    out.append(" |   ");
    push_right_aligned(out, summary.war_stars, 2);
    out.append(" | ");
    push_right_aligned(out, summary.raid_loot, 5);
    out.append(" |    ");
    push_right_aligned(out, summary.games_score, 2);
    assert(out@ =~= before + summary_line(name@, *summary, width as nat));
}

/// The messages that show `summaries`: the names with their totals, in the
/// order in which they are given, in batches of as many lines as fit into
/// one message, each batch under the head of the table and over the time
/// `timestamp` at which the summaries were taken. The names stand in a
/// column of `padding_width` characters, which with the four totals must
/// fit into one batch.
pub fn generate_batches(
    player_count: usize,
    header_padding_width: usize,
    padding_width: usize,
    summaries: &Vec<(String, PlayerSummary)>,
    timestamp: u64,
) -> (batches: Vec<String>)
    requires
        line_width(padding_width as nat) <= BATCH_WIDTH,
        player_count < usize::MAX,
    ensures
        batches@.len() == batch_count(player_count as nat, padding_width as nat),
        forall|batch: int|
            0 <= batch < batches@.len() ==> (#[trigger] batches@[batch])@ == batch_text(
                batch as nat,
                player_count as nat,
                header_padding_width as nat,
                padding_width as nat,
                summaries@,
                timestamp,
            ),
{
    let line_width = padding_width + 28;
    let players_per_line = BATCH_WIDTH / line_width;
    assert(players_per_line >= 1) by (nonlinear_arith)
        requires
            players_per_line == 1800usize / line_width,
            1 <= line_width <= 1800,
    ;
    let count = player_count / players_per_line + 1;
    let ghost lines = summary_lines(summaries@, padding_width as nat);
    let mut batches: Vec<String> = Vec::new();
    let mut batch: usize = 0;
    let mut next: usize = 0;
    while batch < count
        invariant
            batch <= count,
            padding_width + 28 <= BATCH_WIDTH,
            players_per_line == players_per_batch(padding_width as nat),
            players_per_line >= 1,
            count == batch_count(player_count as nat, padding_width as nat),
            count == player_count / players_per_line + 1,
            lines == summary_lines(summaries@, padding_width as nat),
            lines.len() == summaries@.len(),
            next == batch_start(batch as nat, players_per_line as nat, lines.len()),
            batches@.len() == batch,
            forall|b: int|
                0 <= b < batch ==> (#[trigger] batches@[b])@ == batch_text(
                    b as nat,
                    player_count as nat,
                    header_padding_width as nat,
                    padding_width as nat,
                    summaries@,
                    timestamp,
                ),
        decreases count - batch,
    {
        let mut text = String::new();
        proof {
            reveal_strlit(" ");
            reveal_strlit("-");
        }
        text.append("```Player Tag ");
        push_left_aligned(&mut text, " ", header_padding_width);
        text.append("| CWL | Wars | Raids | Games");
        text.append("\n");
        push_repeated(
            &mut text,
            "-",
            if padding_width >= HEAD_NAME_WIDTH {
                40 + (padding_width - HEAD_NAME_WIDTH)
            } else {
                40
            },
        );
        text.append("\n");
        let ghost top = text@;
        assert(top =~= head_line(header_padding_width as nat) + "\n"@ + rule_line(
            padding_width as nat,
        ) + "\n"@);
        let from = next;
        let mut taken: usize = 0;
        assert(lines.subrange(from as int, from as int) =~= Seq::<Seq<char>>::empty());
        while taken < players_per_line && next < summaries.len()
            invariant
                from <= next <= summaries@.len(),
                next == from + taken,
                taken <= players_per_line,
                lines == summary_lines(summaries@, padding_width as nat),
                text@ == top + stacked(lines.subrange(from as int, next as int)),
            decreases summaries@.len() - next,
        {
            push_summary_line(&mut text, summaries[next].0.as_str(), &summaries[next].1, padding_width);
            text.append("\n");
            proof {
                assert(lines.subrange(from as int, next + 1).drop_last() =~= lines.subrange(
                    from as int,
                    next as int,
                ));
                assert(text@ =~= top + stacked(lines.subrange(from as int, next + 1)));
            }
            next = next + 1;
            taken = taken + 1;
        }
        proof {
            assert(batch * players_per_line <= player_count) by (nonlinear_arith)
                requires
                    batch <= player_count / players_per_line,
                    players_per_line >= 1,
            ;
            assert((batch + 1) * players_per_line == batch * players_per_line + players_per_line)
                by (nonlinear_arith);
            assert(next == batch_start((batch + 1) as nat, players_per_line as nat, lines.len()));
        }
        text.append("```");
        text.append("\nTimestamp: ");
        push_padded_u64(&mut text, timestamp, 1);
        text.append("\n");
        push_padded(&mut text, batch + 1, 1);
        text.append("/");
        push_padded(&mut text, count, 1);
        assert(text@ =~= batch_text(
            batch as nat,
            player_count as nat,
            header_padding_width as nat,
            padding_width as nat,
            summaries@,
            timestamp,
        ));
        batches.push(text);
        batch = batch + 1;
    }
    batches
}

/// The bytes of the name in line `j`.
pub open spec fn line_bytes(lines: Seq<(String, PlayerSummary)>, j: int) -> Seq<u8> {
    vstd::utf8::encode_utf8(lines[j].0@)
}

/// Line `j` of `lines` shows the name `name`.
pub open spec fn names_in_line(lines: Seq<(String, PlayerSummary)>, j: int, name: Seq<char>)
    -> bool {
    0 <= j < lines.len() && lines[j].0@ == name
}

/// A line of `lines` shows the name `name`.
pub open spec fn has_line(lines: Seq<(String, PlayerSummary)>, name: Seq<char>) -> bool {
    exists|j: int| #[trigger] names_in_line(lines, j, name)
}

/// No player after the player at `index` has the same name.
pub open spec fn is_last_of_name(names: Seq<(Seq<char>, Seq<char>)>, index: int) -> bool {
    &&& 0 <= index < names.len()
    &&& forall|later: int|
        index < later < names.len() ==> (#[trigger] names[later]).1 != names[index].1
}

/// `line` shows the player at `index`: the name and the summary of that
/// player, who is the last of that name.
pub open spec fn shows_player(line: (String, PlayerSummary), stats: ClanStorageView, index: int)
    -> bool {
    &&& is_last_of_name(stats.player_names, index)
    &&& line.0@ == stats.player_names[index].1
    &&& is_summary_of(line.1, stats, stats.player_names[index].0)
}

/// `line` shows a player of `stats`.
pub open spec fn shows_a_player(line: (String, PlayerSummary), stats: ClanStorageView) -> bool {
    exists|index: int| #[trigger] shows_player(line, stats, index)
}

/// `lines` shows the players of `stats` by name: the lines stand in the
/// order of their names, each name once, every name of a player has its
/// line, and each line shows the summary of the last player of its name.
pub open spec fn shown_by_name(lines: Seq<(String, PlayerSummary)>, stats: ClanStorageView)
    -> bool {
    &&& forall|j: int, k: int|
        0 <= j < k < lines.len() ==> precedes(
            #[trigger] line_bytes(lines, j),
            #[trigger] line_bytes(lines, k),
        )
    &&& forall|j: int| 0 <= j < lines.len() ==> shows_a_player(#[trigger] lines[j], stats)
    &&& forall|i: int|
        0 <= i < stats.player_names.len() ==> has_line(lines, (#[trigger] stats.player_names[i]).1)
}

/// The names and the summaries of the players, in the order of the names
/// by their bytes. Of players with the same name only the last is shown.
/// Nothing where a total of one of the players does not fit in a `usize`.
pub fn summaries_by_name(stats: &ClanStorage) -> (r: Option<Vec<(String, PlayerSummary)>>)
    ensures
        r matches Some(lines) ==> shown_by_name(lines@, stats@),
        r is None ==> !all_totals_fit(stats@),
{
    let summaries = match stats.try_players_summary() {
        Some(summaries) => summaries,
        None => {
            return None;
        },
    };
    let order = name_order(&stats.player_names);
    let count = order.len();
    let ghost names = stats@.player_names;
    let mut lines: Vec<(String, PlayerSummary)> = Vec::new();
    let mut place: usize = 0;
    while place < count
        invariant
            place <= count,
            count == names.len(),
            count == order@.len(),
            names == stats@.player_names,
            lists_each_once(order@, names.len()),
            in_name_order(order@, names),
            summarizes(summaries@, stats@),
            forall|j: int, k: int|
                0 <= j < k < lines@.len() ==> precedes(
                    #[trigger] line_bytes(lines@, j),
                    #[trigger] line_bytes(lines@, k),
                ),
            place < count ==> forall|j: int|
                0 <= j < lines@.len() ==> precedes(
                    #[trigger] line_bytes(lines@, j),
                    name_bytes(names, order@[place as int] as int),
                ),
            forall|j: int| 0 <= j < lines@.len() ==> shows_a_player(#[trigger] lines@[j], stats@),
            forall|q: int|
                0 <= q < place ==> has_line(lines@, names[#[trigger] order@[q] as int].1) || (place
                    < count && names[order@[q] as int].1 == names[order@[place as int] as int].1),
        decreases count - place,
    {
        let index = order[place];
        let name = stats.player_names.value_at(index);
        let keep = if place + 1 < count {
            !(*name == *stats.player_names.value_at(order[place + 1]))
        } else {
            true
        };
        let ghost shown = lines@;
        let ghost here = name_bytes(names, index as int);
        proof {
            if place + 1 < count {
                let next = name_bytes(names, order@[place + 1] as int);
                assert(precedes(here, next) || here == next);
                if keep {
                    if here == next {
                        lemma_same_bytes_same_text(
                            names[index as int].1,
                            names[order@[place + 1] as int].1,
                        );
                    }
                    assert(precedes(here, next));
                    assert forall|j: int| 0 <= j < shown.len() implies precedes(
                        #[trigger] line_bytes(shown, j),
                        next,
                    ) by {
                        lemma_precedes_transitive(line_bytes(shown, j), here, next);
                    }
                }
            }
        }
        if keep {
            let line = (name.clone(), summaries[index].1);
            proof {
                // no later player has this name
                assert forall|later: int| index < later < names.len() implies (
                #[trigger] names[later]).1 != names[index as int].1 by {
                    if names[later].1 == names[index as int].1 {
                        assert(lists(order@, later));
                        let at = choose|at: int| #[trigger] stands_at(order@, later, at);
                        let there = name_bytes(names, later);
                        assert(there == here);
                        lemma_precedes_irreflexive(here);
                        if at < place {
                            assert(precedes(there, here) || (there == here && order@[at]
                                < order@[place as int]));
                        } else {
                            let next = name_bytes(names, order@[place + 1] as int);
                            if at > place + 1 {
                                assert(precedes(next, there) || next == there);
                                if precedes(next, there) {
                                    lemma_precedes_transitive(here, next, there);
                                }
                            }
                        }
                    }
                }
                assert(shows_player(line, stats@, index as int));
            }
            lines.push(line);
            proof {
                assert forall|j: int, k: int| 0 <= j < k < lines@.len() implies precedes(
                    #[trigger] line_bytes(lines@, j),
                    #[trigger] line_bytes(lines@, k),
                ) by {
                    assert(line_bytes(lines@, j) == line_bytes(shown, j));
                    if k < shown.len() {
                        assert(line_bytes(lines@, k) == line_bytes(shown, k));
                    } else {
                        assert(line_bytes(lines@, k) == here);
                    }
                }
                assert forall|j: int| 0 <= j < lines@.len() implies shows_a_player(
                    #[trigger] lines@[j],
                    stats@,
                ) by {
                    if j < shown.len() {
                        assert(lines@[j] == shown[j]);
                    }
                }
                assert(names_in_line(lines@, shown.len() as int, names[index as int].1));
                assert forall|q: int| 0 <= q < place + 1 implies has_line(
                    lines@,
                    names[#[trigger] order@[q] as int].1,
                ) by {
                    if q < place && has_line(shown, names[order@[q] as int].1) {
                        let j = choose|j: int| #[trigger]
                            names_in_line(shown, j, names[order@[q] as int].1);
                        assert(names_in_line(lines@, j, names[order@[q] as int].1));
                    }
                }
                if place + 1 < count {
                    let next = name_bytes(names, order@[place + 1] as int);
                    assert forall|j: int| 0 <= j < lines@.len() implies precedes(
                        #[trigger] line_bytes(lines@, j),
                        next,
                    ) by {
                        if j < shown.len() {
                            assert(line_bytes(lines@, j) == line_bytes(shown, j));
                        } else {
                            assert(line_bytes(lines@, j) == here);
                        }
                    }
                }
            }
        }
        place = place + 1;
    }
    proof {
        assert forall|i: int| 0 <= i < names.len() implies has_line(
            lines@,
            (#[trigger] names[i]).1,
        ) by {
            assert(lists(order@, i));
            let at = choose|at: int| #[trigger] stands_at(order@, i, at);
            assert(has_line(lines@, names[order@[at] as int].1));
        }
    }
    let r = Some(lines);
    assert(r matches Some(shown) && shown_by_name(shown@, stats@));
    r
}

/// The width of the column of the names: that of the longest name in bytes,
/// and at least the width that the head of the table is made for.
pub fn name_column_width(lines: &Vec<(String, PlayerSummary)>) -> (width: usize)
    ensures
        width >= HEAD_NAME_WIDTH,
        forall|j: int| 0 <= j < lines@.len() ==> #[trigger] line_bytes(lines@, j).len() <= width,
        width == HEAD_NAME_WIDTH || exists|j: int|
            0 <= j < lines@.len() && #[trigger] line_bytes(lines@, j).len() == width,
{
    let mut width: usize = HEAD_NAME_WIDTH;
    let mut i: usize = 0;
    while i < lines.len()
        invariant
            i <= lines@.len(),
            width >= HEAD_NAME_WIDTH,
            forall|j: int| 0 <= j < i ==> #[trigger] line_bytes(lines@, j).len() <= width,
            width == HEAD_NAME_WIDTH || exists|j: int|
                0 <= j < i && #[trigger] line_bytes(lines@, j).len() == width,
        decreases lines@.len() - i,
    {
        let length = lines[i].0.as_str().as_bytes().len();
        assert(length == line_bytes(lines@, i as int).len());
        if length > width {
            width = length;
        }
        i = i + 1;
    }
    width
}

} // verus!
