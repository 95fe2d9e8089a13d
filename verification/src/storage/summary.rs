//! The summary of a season for each player whose name is known.

use crate::storage::{ClanStorage, ClanStorageView, MemberWarStats, RaidMember, Roster, WarAttack};
use crate::table::{value_of, Table};
use crate::tags::PlayerTag;
use vstd::prelude::*;

verus! {

/// What one player did in one season.
#[derive(Debug, PartialEq, Eq, Structural, Clone, Copy)]
pub struct PlayerSummary {
    /// The stars of all attacks in all rounds of the clan war league.
    pub cwl_stars: usize,
    /// The stars of all attacks in all regular wars.
    pub war_stars: usize,
    /// The loot of all raid weekends.
    pub raid_loot: usize,
    /// The clan games score seen last.
    pub games_score: usize,
}

/// The sum of `terms`.
pub open spec fn sum(terms: Seq<nat>) -> nat
    decreases terms.len(),
{
    if terms.len() == 0 {
        0
    } else {
        sum(terms.drop_last()) + terms.last()
    }
}

/// The stars of `attacks`, added up.
pub open spec fn stars_of(attacks: Seq<WarAttack>) -> nat {
    sum(Seq::new(attacks.len(), |i: int| attacks[i].stars as nat))
}

/// The stars that `player` won in one war: none where the player is not
/// among its members.
pub open spec fn stars_in(members: Roster<Seq<WarAttack>>, player: Seq<char>) -> nat {
    match value_of(members, player) {
        Some(attacks) => stars_of(attacks),
        None => 0,
    }
}

/// The loot that `player` made on one raid weekend: none where the player is
/// not among its members.
pub open spec fn loot_in(members: Roster<RaidMember>, player: Seq<char>) -> nat {
    match value_of(members, player) {
        Some(member) => member.looted as nat,
        None => 0,
    }
}

/// The stars of `player` over all rounds of the clan war league.
pub open spec fn cwl_stars(stats: ClanStorageView, player: Seq<char>) -> nat {
    sum(Seq::new(stats.cwl.len(), |i: int| stars_in(stats.cwl[i], player)))
}

/// The stars of `player` over all regular wars.
pub open spec fn war_stars(stats: ClanStorageView, player: Seq<char>) -> nat {
    sum(Seq::new(stats.wars.len(), |i: int| stars_in(stats.wars[i].1.members, player)))
}

/// The loot of `player` over all raid weekends.
pub open spec fn raid_loot(stats: ClanStorageView, player: Seq<char>) -> nat {
    sum(Seq::new(stats.raid_weekend.len(), |i: int| loot_in(stats.raid_weekend[i].1.members, player)))
}

/// The clan games score of `player` seen last, 0 where none was seen.
pub open spec fn games_score(stats: ClanStorageView, player: Seq<char>) -> nat {
    match value_of(stats.games, player) {
        Some(games) => games.end_score as nat,
        None => 0,
    }
}

/// `summary` is the summary of `player` in `stats`.
pub open spec fn is_summary_of(summary: PlayerSummary, stats: ClanStorageView, player: Seq<char>)
    -> bool {
    &&& summary.cwl_stars == cwl_stars(stats, player)
    &&& summary.war_stars == war_stars(stats, player)
    &&& summary.raid_loot == raid_loot(stats, player)
    &&& summary.games_score == games_score(stats, player)
}

/// The three totals of `player` each fit in a `usize`.
pub open spec fn totals_fit(stats: ClanStorageView, player: Seq<char>) -> bool {
    &&& cwl_stars(stats, player) <= usize::MAX
    &&& war_stars(stats, player) <= usize::MAX
    &&& raid_loot(stats, player) <= usize::MAX
}

/// The totals of every player whose name is known fit in a `usize`.
pub open spec fn all_totals_fit(stats: ClanStorageView) -> bool {
    forall|i: int|
        0 <= i < stats.player_names.len() ==> totals_fit(stats, (#[trigger] stats.player_names[i]).0)
}

/// `summaries` holds, for each player whose name is known and in the order of
/// the names, the tag and the summary of that player.
pub open spec fn summarizes(summaries: Seq<(PlayerTag, PlayerSummary)>, stats: ClanStorageView)
    -> bool {
    &&& summaries.len() == stats.player_names.len()
    &&& forall|i: int|
        0 <= i < summaries.len() ==> {
            &&& (#[trigger] summaries[i]).0@ == stats.player_names[i].0
            &&& is_summary_of(summaries[i].1, stats, stats.player_names[i].0)
        }
}

/// The sum of the first `k` terms is no more than the sum of all, and no
/// term is more than the sum.
pub proof fn lemma_sum_bounds(terms: Seq<nat>, k: int)
    requires
        0 <= k <= terms.len(),
    ensures
        sum(terms.subrange(0, k)) <= sum(terms),
        k < terms.len() ==> sum(terms.subrange(0, k)) + terms[k] <= sum(terms),
    decreases terms.len() - k,
{
    if k == terms.len() {
        assert(terms.subrange(0, k) =~= terms);
    } else {
        let longer = terms.subrange(0, k + 1);
        assert(longer.drop_last() =~= terms.subrange(0, k));
        lemma_sum_bounds(terms, k + 1);
    }
}

/// The sum of the first `k + 1` terms is the sum of the first `k` and the
/// next term.
pub proof fn lemma_sum_step(terms: Seq<nat>, k: int)
    requires
        0 <= k < terms.len(),
    ensures
        sum(terms.subrange(0, k + 1)) == sum(terms.subrange(0, k)) + terms[k],
{
    let longer = terms.subrange(0, k + 1);
    assert(longer.drop_last() =~= terms.subrange(0, k));
}

/// Adds `term` to `total`, where the sum fits.
fn add_term(total: usize, term: Option<usize>, Ghost(terms): Ghost<Seq<nat>>, Ghost(k): Ghost<int>)
    -> (r: Option<usize>)
    requires
        0 <= k < terms.len(),
        total == sum(terms.subrange(0, k)),
        match term {
            Some(n) => n == terms[k],
            None => terms[k] > usize::MAX,
        },
    ensures
        match r {
            Some(n) => n == sum(terms.subrange(0, k + 1)),
            None => sum(terms) > usize::MAX,
        },
{
    proof {
        lemma_sum_step(terms, k);
        lemma_sum_bounds(terms, k);
    }
    match term {
        Some(n) => total.checked_add(n),
        None => None,
    }
}

/// The stars of `attacks`, added up, where the sum fits.
pub fn total_stars(attacks: &Vec<WarAttack>) -> (r: Option<usize>)
    ensures
        match r {
            Some(n) => n == stars_of(attacks@),
            None => stars_of(attacks@) > usize::MAX,
        },
{
    let ghost terms = Seq::new(attacks@.len(), |i: int| attacks@[i].stars as nat);
    let mut total: usize = 0;
    let mut i: usize = 0;
    while i < attacks.len()
        invariant
            i <= attacks@.len(),
            terms == Seq::new(attacks@.len(), |i: int| attacks@[i].stars as nat),
            total == sum(terms.subrange(0, i as int)),
        decreases attacks@.len() - i,
    {
        match add_term(total, Some(attacks[i].stars), Ghost(terms), Ghost(i as int)) {
            Some(n) => {
                total = n;
            },
            None => {
                return None;
            },
        }
        i = i + 1;
    }
    assert(terms.subrange(0, i as int) =~= terms);
    Some(total)
}

/// The stars that `player` won in the war of `members`, where the sum fits.
pub fn total_stars_of(members: &Table<PlayerTag, MemberWarStats>, player: &PlayerTag) -> (r:
    Option<usize>)
    ensures
        match r {
            Some(n) => n == stars_in(members@, player@),
            None => stars_in(members@, player@) > usize::MAX,
        },
{
    match members.get(player) {
        Some(stats) => total_stars(&stats.attacks),
        None => Some(0),
    }
}

impl ClanStorage {
    /// The stars of `player` over all rounds of the clan war league, where
    /// the sum fits.
    pub fn total_cwl_stars(&self, player: &PlayerTag) -> (r: Option<usize>)
        ensures
            match r {
                Some(n) => n == cwl_stars(self@, player@),
                None => cwl_stars(self@, player@) > usize::MAX,
            },
    {
        let ghost terms = Seq::new(self@.cwl.len(), |i: int| stars_in(self@.cwl[i], player@));
        let mut total: usize = 0;
        let mut i: usize = 0;
        while i < self.cwl.wars.len()
            invariant
                i <= self.cwl.wars@.len(),
                self.cwl.wars@.len() == self@.cwl.len(),
                terms == Seq::new(self@.cwl.len(), |i: int| stars_in(self@.cwl[i], player@)),
                total == sum(terms.subrange(0, i as int)),
            decreases self.cwl.wars@.len() - i,
        {
            let term = total_stars_of(&self.cwl.wars[i].members, player);
            match add_term(total, term, Ghost(terms), Ghost(i as int)) {
                Some(n) => {
                    total = n;
                },
                None => {
                    return None;
                },
            }
            i = i + 1;
        }
        assert(terms.subrange(0, i as int) =~= terms);
        Some(total)
    }

    /// The stars of `player` over all regular wars, where the sum fits.
    pub fn total_war_stars(&self, player: &PlayerTag) -> (r: Option<usize>)
        ensures
            match r {
                Some(n) => n == war_stars(self@, player@),
                None => war_stars(self@, player@) > usize::MAX,
            },
    {
        let ghost terms = Seq::new(
            self@.wars.len(),
            |i: int| stars_in(self@.wars[i].1.members, player@),
        );
        let mut total: usize = 0;
        let mut i: usize = 0;
        while i < self.wars.len()
            invariant
                i <= self@.wars.len(),
                terms == Seq::new(
                    self@.wars.len(),
                    |i: int| stars_in(self@.wars[i].1.members, player@),
                ),
                total == sum(terms.subrange(0, i as int)),
            decreases self@.wars.len() - i,
        {
            let term = total_stars_of(&self.wars.value_at(i).members, player);
            match add_term(total, term, Ghost(terms), Ghost(i as int)) {
                Some(n) => {
                    total = n;
                },
                None => {
                    return None;
                },
            }
            i = i + 1;
        }
        assert(terms.subrange(0, i as int) =~= terms);
        Some(total)
    }

    /// The loot of `player` over all raid weekends, where the sum fits.
    pub fn total_raid_loot(&self, player: &PlayerTag) -> (r: Option<usize>)
        ensures
            match r {
                Some(n) => n == raid_loot(self@, player@),
                None => raid_loot(self@, player@) > usize::MAX,
            },
    {
        let ghost terms = Seq::new(
            self@.raid_weekend.len(),
            |i: int| loot_in(self@.raid_weekend[i].1.members, player@),
        );
        let mut total: usize = 0;
        let mut i: usize = 0;
        while i < self.raid_weekend.len()
            invariant
                i <= self@.raid_weekend.len(),
                terms == Seq::new(
                    self@.raid_weekend.len(),
                    |i: int| loot_in(self@.raid_weekend[i].1.members, player@),
                ),
                total == sum(terms.subrange(0, i as int)),
            decreases self@.raid_weekend.len() - i,
        {
            let term = match self.raid_weekend.value_at(i).members.get(player) {
                Some(member) => member.looted,
                None => 0,
            };
            match add_term(total, Some(term), Ghost(terms), Ghost(i as int)) {
                Some(n) => {
                    total = n;
                },
                None => {
                    return None;
                },
            }
            i = i + 1;
        }
        assert(terms.subrange(0, i as int) =~= terms);
        Some(total)
    }

    /// The clan games score of `player` seen last, 0 where none was seen.
    pub fn last_games_score(&self, player: &PlayerTag) -> (score: usize)
        ensures
            score == games_score(self@, player@),
    {
        match self.games.get(player) {
            Some(games) => games.end_score,
            None => 0,
        }
    }

    /// The summary of `player`, where its totals fit.
    pub fn summary_of(&self, player: &PlayerTag) -> (r: Option<PlayerSummary>)
        ensures
            match r {
                Some(summary) => is_summary_of(summary, self@, player@),
                None => !totals_fit(self@, player@),
            },
    {
        let cwl_stars = match self.total_cwl_stars(player) {
            Some(n) => n,
            None => {
                return None;
            },
        };
        let war_stars = match self.total_war_stars(player) {
            Some(n) => n,
            None => {
                return None;
            },
        };
        let raid_loot = match self.total_raid_loot(player) {
            Some(n) => n,
            None => {
                return None;
            },
        };
        let games_score = self.last_games_score(player);
        Some(PlayerSummary { cwl_stars, war_stars, raid_loot, games_score })
    }

    /// The summary of each player whose name is known, in the order of the
    /// names; nothing where a total of one of them does not fit in a
    /// `usize`. Players who are recorded without a name are left out.
    pub fn try_players_summary(&self) -> (r: Option<Vec<(PlayerTag, PlayerSummary)>>)
        ensures
            match r {
                Some(summaries) => summarizes(summaries@, self@),
                None => !all_totals_fit(self@),
            },
    {
        let mut summaries: Vec<(PlayerTag, PlayerSummary)> = Vec::new();
        let mut i: usize = 0;
        while i < self.player_names.len()
            invariant
                i <= self@.player_names.len(),
                summaries@.len() == i,
                forall|j: int|
                    0 <= j < i ==> {
                        &&& (#[trigger] summaries@[j]).0@ == self@.player_names[j].0
                        &&& is_summary_of(summaries@[j].1, self@, self@.player_names[j].0)
                    },
            decreases self@.player_names.len() - i,
        {
            let player = self.player_names.key_at(i);
            match self.summary_of(player) {
                Some(summary) => {
                    summaries.push((player.clone(), summary));
                },
                None => {
                    assert(!totals_fit(self@, self@.player_names[i as int].0));
                    return None;
                },
            }
            i = i + 1;
        }
        Some(summaries)
    }

    /// The summary of each player whose name is known, in the order of the
    /// names. Players who are recorded without a name are left out.
    pub fn players_summary(&self) -> (summaries: Vec<(PlayerTag, PlayerSummary)>)
        requires
            all_totals_fit(self@),
        ensures
            summarizes(summaries@, self@),
    {
        self.try_players_summary().unwrap()
    }
}

} // verus!
