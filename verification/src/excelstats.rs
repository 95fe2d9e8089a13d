//! The sheet that shows a season of a clan, player by player.

use crate::storage::summary::{
    all_totals_fit, cwl_stars, is_summary_of, lemma_sum_bounds, loot_in, raid_loot, stars_in,
    total_stars_of, totals_fit, war_stars, PlayerSummary,
};
use crate::order::{in_name_order, lists_each_once, name_order};
use crate::storage::{ClanStorage, ClanStorageView};
use crate::tags::PlayerTag;
use crate::text::{ascii, padded, push_padded};
use vstd::prelude::*;
use vstd::string::*;

verus! {

/// The number of rounds of the clan war league that the sheet shows.
pub const CWL_ROUNDS: usize = 7;

/// Lays out the sheet of a season.
pub struct ExcelStats {}

/// The row of one player: the numbers that the sheet shows for the player,
/// before any of them is set against its goal.
#[derive(Debug, Clone, PartialEq)]
pub struct SheetRow {
    /// The name under which the player is shown.
    pub name: String,
    /// The tag of the player.
    pub tag: PlayerTag,
    /// The stars of the player in each of the first seven rounds of the clan
    /// war league.
    pub cwl_stars: Vec<usize>,
    /// The stars of the player in each regular war.
    pub war_stars: Vec<usize>,
    /// The loot of the player on each raid weekend.
    pub raid_loot: Vec<usize>,
    /// The totals of the player.
    pub summary: PlayerSummary,
}

/// The stars of `player` in round `round` of the clan war league, none where
/// that round was not recorded.
pub open spec fn round_stars(stats: ClanStorageView, player: Seq<char>, round: int) -> nat {
    if 0 <= round < stats.cwl.len() {
        stars_in(stats.cwl[round], player)
    } else {
        0
    }
}

/// `row` is the row of the player whose name is entry `i` of the names.
pub open spec fn is_row_of(row: SheetRow, stats: ClanStorageView, i: int) -> bool {
    let player = stats.player_names[i].0;
    &&& row.tag@ == player
    &&& row.name@ == stats.player_names[i].1
    &&& row.cwl_stars@.len() == CWL_ROUNDS
    &&& forall|r: int| 0 <= r < CWL_ROUNDS ==> #[trigger] row.cwl_stars@[r] == round_stars(stats, player, r)
    &&& row.war_stars@.len() == stats.wars.len()
    &&& forall|w: int|
        0 <= w < stats.wars.len() ==> #[trigger] row.war_stars@[w] == stars_in(
            stats.wars[w].1.members,
            player,
        )
    &&& row.raid_loot@.len() == stats.raid_weekend.len()
    &&& forall|w: int|
        0 <= w < stats.raid_weekend.len() ==> #[trigger] row.raid_loot@[w] == loot_in(
            stats.raid_weekend[w].1.members,
            player,
        )
    &&& is_summary_of(row.summary, stats, player)
}

/// `rows` holds the rows of the players in the order `order`, which is the
/// order of their names.
pub open spec fn shows_in_order(rows: Seq<SheetRow>, stats: ClanStorageView, order: Seq<usize>)
    -> bool {
    &&& lists_each_once(order, stats.player_names.len())
    &&& in_name_order(order, stats.player_names)
    &&& rows.len() == order.len()
    &&& forall|j: int| 0 <= j < rows.len() ==> is_row_of(#[trigger] rows[j], stats, order[j] as int)
}

/// A label with a number behind it, such as `War 3`.
pub open spec fn numbered(label: Seq<char>, number: nat) -> Seq<char> {
    label + ascii(padded(number, 1))
}

/// The head of the sheet for `wars` regular wars and `raids` raid weekends:
/// the name, the seven rounds of the clan war league and their score, the
/// wars and their score, the raid weekends and their score, and the total
/// score.
pub open spec fn head_of(wars: nat, raids: nat) -> Seq<Seq<char>> {
    seq!["Name"@] + Seq::new(CWL_ROUNDS as nat, |i: int| numbered("CWL "@, (i + 1) as nat))
        + seq!["CWL Score"@] + Seq::new(wars, |i: int| numbered("War "@, (i + 1) as nat))
        + seq!["War Score"@] + Seq::new(raids, |i: int| numbered("Raid "@, (i + 1) as nat))
        + seq!["Raid Score"@, "Total Score"@]
}

/// The texts of `head`.
pub open spec fn texts(head: Seq<String>) -> Seq<Seq<char>> {
    Seq::new(head.len(), |i: int| head[i]@)
}

/// Appends the labels `label 1` to `label count` to `head`.
fn push_numbered(head: &mut Vec<String>, label: &str, count: usize)
    ensures
        texts(final(head)@) == texts(old(head)@) + Seq::new(
            count as nat,
            |i: int| numbered(label@, (i + 1) as nat),
        ),
{
    let ghost before = texts(head@);
    let mut i: usize = 0;
    assert(texts(head@) =~= before + Seq::new(0, |i: int| numbered(label@, (i + 1) as nat)));
    while i < count
        invariant
            i <= count,
            texts(head@) == before + Seq::new(i as nat, |i: int| numbered(label@, (i + 1) as nat)),
        decreases count - i,
    {
        let ghost earlier = texts(head@);
        let mut text = label.to_owned();
        push_padded(&mut text, i + 1, 1);
        assert(text@ == numbered(label@, (i + 1) as nat));
        head.push(text);
        assert(texts(head@) =~= earlier.push(numbered(label@, (i + 1) as nat)));
        i = i + 1;
        assert(texts(head@) =~= before + Seq::new(
            i as nat,
            |i: int| numbered(label@, (i + 1) as nat),
        ));
    }
}

impl ExcelStats {
    /// The layout of the sheet.
    pub fn new() -> (r: Self) {
        ExcelStats {  }
    }

    /// The head of the sheet for `stats`.
    pub fn header(&self, stats: &ClanStorage) -> (head: Vec<String>)
        ensures
            texts(head@) == head_of(stats@.wars.len(), stats@.raid_weekend.len()),
    {
        let mut head: Vec<String> = Vec::new();
        head.push("Name".to_owned());
        assert(texts(head@) =~= seq!["Name"@]);
        push_numbered(&mut head, "CWL ", CWL_ROUNDS);
        let ghost first = texts(head@);
        head.push("CWL Score".to_owned());
        assert(texts(head@) =~= first + seq!["CWL Score"@]);
        push_numbered(&mut head, "War ", stats.wars.len());
        let ghost second = texts(head@);
        head.push("War Score".to_owned());
        assert(texts(head@) =~= second + seq!["War Score"@]);
        push_numbered(&mut head, "Raid ", stats.raid_weekend.len());
        let ghost third = texts(head@);
        head.push("Raid Score".to_owned());
        head.push("Total Score".to_owned());
        assert(texts(head@) =~= third + seq!["Raid Score"@, "Total Score"@]);
        head
    }

    /// The row of the player whose name is entry `index` of the names, where
    /// the totals of the player fit in a `usize`.
    pub fn row(&self, stats: &ClanStorage, index: usize) -> (r: Option<SheetRow>)
        requires
            index < stats@.player_names.len(),
        ensures
            match r {
                Some(row) => is_row_of(row, stats@, index as int),
                None => !totals_fit(stats@, stats@.player_names[index as int].0),
            },
    {
        let tag = stats.player_names.key_at(index);
        let name = stats.player_names.value_at(index);
        let ghost player = tag@;
        let summary = match stats.summary_of(tag) {
            Some(summary) => summary,
            None => {
                return None;
            },
        };
        let mut cwl: Vec<usize> = Vec::new();
        let mut round: usize = 0;
        while round < CWL_ROUNDS
            invariant
                round <= CWL_ROUNDS,
                player == tag@,
                cwl@.len() == round,
                cwl_stars(stats@, player) <= usize::MAX,
                stats.cwl.wars@.len() == stats@.cwl.len(),
                forall|r: int| 0 <= r < round ==> #[trigger] cwl@[r] == round_stars(stats@, player, r),
            decreases CWL_ROUNDS - round,
        {
            let stars = if round < stats.cwl.wars.len() {
                proof {
                    let terms = Seq::new(
                        stats@.cwl.len(),
                        |i: int| stars_in(stats@.cwl[i], player),
                    );
                    lemma_sum_bounds(terms, round as int);
                }
                match total_stars_of(&stats.cwl.wars[round].members, tag) {
                    Some(stars) => stars,
                    None => 0,
                }
            } else {
                0
            };
            cwl.push(stars);
            round = round + 1;
        }
        let mut wars: Vec<usize> = Vec::new();
        let mut war: usize = 0;
        while war < stats.wars.len()
            invariant
                war <= stats@.wars.len(),
                player == tag@,
                wars@.len() == war,
                war_stars(stats@, player) <= usize::MAX,
                forall|w: int|
                    0 <= w < war ==> #[trigger] wars@[w] == stars_in(stats@.wars[w].1.members, player),
            decreases stats@.wars.len() - war,
        {
            proof {
                let terms = Seq::new(
                    stats@.wars.len(),
                    |i: int| stars_in(stats@.wars[i].1.members, player),
                );
                lemma_sum_bounds(terms, war as int);
            }
            let stars = match total_stars_of(&stats.wars.value_at(war).members, tag) {
                Some(stars) => stars,
                None => 0,
            };
            wars.push(stars);
            war = war + 1;
        }
        let mut raids: Vec<usize> = Vec::new();
        let mut raid: usize = 0;
        while raid < stats.raid_weekend.len()
            invariant
                raid <= stats@.raid_weekend.len(),
                player == tag@,
                raids@.len() == raid,
                forall|w: int|
                    0 <= w < raid ==> #[trigger] raids@[w] == loot_in(
                        stats@.raid_weekend[w].1.members,
                        player,
                    ),
            decreases stats@.raid_weekend.len() - raid,
        {
            let loot = match stats.raid_weekend.value_at(raid).members.get(tag) {
                Some(member) => member.looted,
                None => 0,
            };
            raids.push(loot);
            raid = raid + 1;
        }
        Some(
            SheetRow {
                name: name.clone(),
                tag: tag.clone(),
                cwl_stars: cwl,
                war_stars: wars,
                raid_loot: raids,
                summary,
            },
        )
    }

    /// The rows of the sheet: one for each player whose name is known, in
    /// the order of the names; nothing where a total of one of the players
    /// does not fit in a `usize`.
    pub fn rows(&self, stats: &ClanStorage) -> (r: Option<Vec<SheetRow>>)
        ensures
            match r {
                Some(rows) => {
                    &&& rows@.len() == stats@.player_names.len()
                    &&& forall|i: int| 0 <= i < rows@.len() ==> is_row_of(#[trigger] rows@[i], stats@, i)
                },
                None => !all_totals_fit(stats@),
            },
    {
        let mut rows: Vec<SheetRow> = Vec::new();
        let mut i: usize = 0;
        while i < stats.player_names.len()
            invariant
                i <= stats@.player_names.len(),
                rows@.len() == i,
                forall|j: int| 0 <= j < i ==> is_row_of(#[trigger] rows@[j], stats@, j),
            decreases stats@.player_names.len() - i,
        {
            match self.row(stats, i) {
                Some(row) => {
                    rows.push(row);
                },
                None => {
                    assert(!totals_fit(stats@, stats@.player_names[i as int].0));
                    return None;
                },
            }
            i = i + 1;
        }
        Some(rows)
    }

    /// The rows of the sheet in the order of the names of the players, by
    /// the bytes of the names; players of the same name stand in the order of
    /// the names as they are kept. Nothing where a total of one of the players
    /// does not fit in a `usize`.
    pub fn rows_by_name(&self, stats: &ClanStorage) -> (r: Option<Vec<SheetRow>>)
        ensures
            r matches Some(rows) ==> exists|order: Seq<usize>| #[trigger]
                shows_in_order(rows@, stats@, order),
            r is None ==> !all_totals_fit(stats@),
    {
        let order = name_order(&stats.player_names);
        let mut rows: Vec<SheetRow> = Vec::new();
        let mut j: usize = 0;
        while j < order.len()
            invariant
                j <= order@.len(),
                lists_each_once(order@, stats@.player_names.len()),
                in_name_order(order@, stats@.player_names),
                rows@.len() == j,
                forall|k: int| 0 <= k < j ==> is_row_of(#[trigger] rows@[k], stats@, order@[k] as int),
            decreases order@.len() - j,
        {
            match self.row(stats, order[j]) {
                Some(row) => {
                    rows.push(row);
                },
                None => {
                    assert(!totals_fit(stats@, stats@.player_names[order@[j as int] as int].0));
                    return None;
                },
            }
            j = j + 1;
        }
        let ghost witness = order@;
        let r = Some(rows);
        assert(r matches Some(shown) && shows_in_order(shown@, stats@, witness));
        r
    }
}

} // verus!
