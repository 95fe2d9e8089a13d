//! How the wars of a clan war league change what the store holds.

use crate::collector::{
    ClanWarLeagueAttack, ClanWarLeagueGroup, ClanWarLeagueWar, ClanWarLeagueWarClan,
    ClanWarLeagueWarMember,
};
use crate::storage::{
    bundle_or_empty, lemma_bundle_or_empty_wf, lemma_store_stays_wf, store_wf, with_bundle,
    ClanStorageView, CwlStats, CwlWarStats, MemberWarStats, Roster, Season, Storage, StorageView,
    WarAttack,
};
use crate::table::{
    distinct_keys, has_key, lemma_with_entry_distinct, value_of, with_entry, Key,
};
use crate::tags::{ClanTag, WarTag};
use vstd::prelude::*;

verus! {

/// An attack of a league war as the store keeps it.
pub open spec fn league_attack(raw: ClanWarLeagueAttack) -> WarAttack {
    WarAttack {
        destruction: raw.destruction_percentage,
        stars: raw.stars,
        duration: raw.duration,
    }
}

/// The attacks of a league war as the store keeps them, in the order in
/// which they are reported.
pub open spec fn league_attacks(raw: Seq<ClanWarLeagueAttack>) -> Seq<WarAttack> {
    Seq::new(raw.len(), |i: int| league_attack(raw[i]))
}

/// The round with `member` recorded: the attacks that are reported for the
/// member replace those held for it; a member that is reported without
/// attacks keeps what is held, and is entered without attacks where the
/// round does not know it yet.
pub open spec fn with_league_member(round: Roster<Seq<WarAttack>>, member: ClanWarLeagueWarMember)
    -> Roster<Seq<WarAttack>> {
    with_entry(
        round,
        member.tag@,
        match member.attacks {
            Some(attacks) => league_attacks(attacks@),
            None => match value_of(round, member.tag@) {
                Some(held) => held,
                None => Seq::empty(),
            },
        },
    )
}

/// The round with `members` recorded, one after another.
pub open spec fn with_league_members(
    round: Roster<Seq<WarAttack>>,
    members: Seq<ClanWarLeagueWarMember>,
) -> Roster<Seq<WarAttack>>
    decreases members.len(),
{
    if members.len() == 0 {
        round
    } else {
        with_league_member(with_league_members(round, members.drop_last()), members.last())
    }
}

/// The rounds, filled up with empty rounds until there is a round `index`.
/// No round is ever taken away.
pub open spec fn extended_to(rounds: Seq<Roster<Seq<WarAttack>>>, index: int) -> Seq<
    Roster<Seq<WarAttack>>,
> {
    if index < rounds.len() {
        rounds
    } else {
        rounds + Seq::new((index + 1 - rounds.len()) as nat, |i: int| Seq::empty())
    }
}

/// The side of `war` on which `clan` fights, where it fights in this war.
pub open spec fn own_side(war: ClanWarLeagueWar, clan: Seq<char>) -> Option<ClanWarLeagueWarClan> {
    if war.clan.tag@ == clan {
        Some(war.clan)
    } else if war.opponent.tag@ == clan {
        Some(war.opponent)
    } else {
        None
    }
}

/// The rounds with `war` recorded as the war of `clan` in round `round`. A
/// war in which the clan does not fight changes nothing.
pub open spec fn with_league_war(
    rounds: Seq<Roster<Seq<WarAttack>>>,
    clan: Seq<char>,
    round: int,
    war: ClanWarLeagueWar,
) -> Seq<Roster<Seq<WarAttack>>> {
    match own_side(war, clan) {
        None => rounds,
        Some(side) => {
            let longer = extended_to(rounds, round);
            longer.update(round, with_league_members(longer[round], side.members@))
        },
    }
}

/// The rounds with `wars` recorded, one after another, each in the round that
/// stands with it.
pub open spec fn with_league_wars(
    rounds: Seq<Roster<Seq<WarAttack>>>,
    clan: Seq<char>,
    wars: Seq<(usize, ClanWarLeagueWar)>,
) -> Seq<Roster<Seq<WarAttack>>>
    decreases wars.len(),
{
    if wars.len() == 0 {
        rounds
    } else {
        with_league_war(
            with_league_wars(rounds, clan, wars.drop_last()),
            clan,
            wars.last().0 as int,
            wars.last().1,
        )
    }
}

/// The store with the league wars `wars` recorded for `clan` in the bundle
/// of `season`.
pub open spec fn with_league(
    store: StorageView,
    clan: Seq<char>,
    season: Season,
    wars: Seq<(usize, ClanWarLeagueWar)>,
) -> StorageView {
    let bundle = bundle_or_empty(store, clan, season);
    with_bundle(
        store,
        clan,
        season,
        ClanStorageView { cwl: with_league_wars(bundle.cwl, clan, wars), ..bundle },
    )
}

/// The rounds of `group` with their wars, without the wars that are not
/// assigned yet: for each war the index of its round and its tag, in the
/// order of the rounds.
pub open spec fn assigned_wars(rounds: Seq<Seq<Seq<char>>>) -> Seq<(int, Seq<char>)>
    decreases rounds.len(),
{
    if rounds.len() == 0 {
        Seq::empty()
    } else {
        assigned_wars(rounds.drop_last()) + assigned_in(
            rounds.len() - 1,
            rounds.last(),
        )
    }
}

/// The wars of round `round` that are assigned: those whose tag is not `#0`.
pub open spec fn assigned_in(round: int, tags: Seq<Seq<char>>) -> Seq<(int, Seq<char>)>
    decreases tags.len(),
{
    if tags.len() == 0 {
        Seq::empty()
    } else if tags.last() == seq!['#', '0'] {
        assigned_in(round, tags.drop_last())
    } else {
        assigned_in(round, tags.drop_last()).push((round, tags.last()))
    }
}

/// The tags of the wars of each round of `group`.
pub open spec fn round_tags(group: ClanWarLeagueGroup) -> Seq<Seq<Seq<char>>> {
    Seq::new(
        group.rounds@.len(),
        |i: int| Seq::new(group.rounds@[i].war_tags@.len(), |j: int| group.rounds@[i].war_tags@[j]@),
    )
}

/// The round and the tag of each war of `wars`.
pub open spec fn round_and_tag(wars: Seq<(usize, WarTag)>) -> Seq<(int, Seq<char>)> {
    Seq::new(wars.len(), |i: int| (wars[i].0 as int, wars[i].1@))
}

/// The wars of `group` that are to be fetched: each war that is assigned,
/// with the index of its round, in the order of the rounds.
pub fn league_wars_to_fetch(group: &ClanWarLeagueGroup) -> (wars: Vec<(usize, WarTag)>)
    ensures
        round_and_tag(wars@) == assigned_wars(round_tags(*group)),
{
    let ghost all = round_tags(*group);
    let mut wars: Vec<(usize, WarTag)> = Vec::new();
    let mut round: usize = 0;
    assert(all.subrange(0, 0) =~= Seq::<Seq<Seq<char>>>::empty());
    assert(round_and_tag(wars@) =~= assigned_wars(all.subrange(0, 0)));
    while round < group.rounds.len()
        invariant
            round <= group.rounds@.len(),
            all == round_tags(*group),
            round_and_tag(wars@) == assigned_wars(all.subrange(0, round as int)),
        decreases group.rounds@.len() - round,
    {
        let tags = &group.rounds[round].war_tags;
        let ghost before = assigned_wars(all.subrange(0, round as int));
        let ghost names = all[round as int];
        let mut j: usize = 0;
        assert(names.subrange(0, 0) =~= Seq::<Seq<char>>::empty());
        assert(round_and_tag(wars@) =~= before + assigned_in(round as int, names.subrange(0, 0)));
        while j < tags.len()
            invariant
                j <= tags@.len(),
                round < group.rounds@.len(),
                tags@ == group.rounds@[round as int].war_tags@,
                all == round_tags(*group),
                names == all[round as int],
                round_and_tag(wars@) == before + assigned_in(
                    round as int,
                    names.subrange(0, j as int),
                ),
            decreases tags@.len() - j,
        {
            let tag = &tags[j];
            let ghost listed = round_and_tag(wars@);
            proof {
                assert(names.subrange(0, j + 1).drop_last() =~= names.subrange(0, j as int));
                assert(names.subrange(0, j + 1).last() == tag@);
            }
            if !tag.is_unassigned() {
                wars.push((round, tag.clone()));
                assert(round_and_tag(wars@) =~= listed.push((round as int, tag@)));
            }
            assert(round_and_tag(wars@) =~= before + assigned_in(
                round as int,
                names.subrange(0, j + 1),
            ));
            j = j + 1;
        }
        proof {
            assert(names.subrange(0, j as int) =~= names);
            assert(all.subrange(0, round + 1).drop_last() =~= all.subrange(0, round as int));
        }
        round = round + 1;
    }
    assert(all.subrange(0, round as int) =~= all);
    wars
}

/// The attacks of a league war as the store keeps them.
fn convert_league_attacks(raw: &Vec<ClanWarLeagueAttack>) -> (attacks: Vec<WarAttack>)
    ensures
        attacks@ == league_attacks(raw@),
{
    let mut attacks: Vec<WarAttack> = Vec::new();
    let mut i: usize = 0;
    while i < raw.len()
        invariant
            i <= raw@.len(),
            attacks@ == league_attacks(raw@).subrange(0, i as int),
        decreases raw@.len() - i,
    {
        let attack = &raw[i];
        attacks.push(
            WarAttack {
                destruction: attack.destruction_percentage,
                stars: attack.stars,
                duration: attack.duration,
            },
        );
        assert(attacks@ =~= league_attacks(raw@).subrange(0, i + 1));
        i = i + 1;
    }
    assert(attacks@ =~= league_attacks(raw@));
    attacks
}

/// Records one member of a league war in its round.
fn record_league_member(round: &mut CwlWarStats, member: &ClanWarLeagueWarMember)
    ensures
        final(round)@ == with_league_member(old(round)@, *member),
{
    let member_stats = round.members.get_or_insert(
        member.tag.clone(),
        MemberWarStats { attacks: Vec::new() },
    );
    match &member.attacks {
        Some(attacks) => {
            member_stats.attacks = convert_league_attacks(attacks);
        },
        None => {},
    }
}

/// Records one league war in the rounds, for the clan `clan`.
fn record_league_war(cwl: &mut CwlStats, clan: &ClanTag, round: usize, war: &ClanWarLeagueWar)
    ensures
        final(cwl)@ == with_league_war(old(cwl)@, clan@, round as int, *war),
{
    let side = if war.clan.tag.same(clan) {
        &war.clan
    } else if war.opponent.tag.same(clan) {
        &war.opponent
    } else {
        return ;
    };
    let ghost before = cwl@;
    while cwl.wars.len() <= round
        invariant
            before.len() <= cwl@.len(),
            cwl@.len() == cwl.wars@.len(),
            cwl@.len() <= round + 1 || cwl@ == before,
            cwl@ == before + Seq::new(
                (cwl@.len() - before.len()) as nat,
                |i: int| Seq::<(Seq<char>, Seq<WarAttack>)>::empty(),
            ),
        decreases round + 1 - cwl.wars@.len(),
    {
        let ghost shorter = cwl@;
        cwl.wars.push(CwlWarStats::default());
        assert(cwl@ =~= shorter.push(Seq::<(Seq<char>, Seq<WarAttack>)>::empty()));
        assert(cwl@ =~= before + Seq::new(
            (cwl@.len() - before.len()) as nat,
            |i: int| Seq::<(Seq<char>, Seq<WarAttack>)>::empty(),
        ));
    }
    let ghost longer = cwl@;
    assert(longer =~= extended_to(before, round as int));
    let mut i: usize = 0;
    assert(side.members@.subrange(0, 0) =~= Seq::<ClanWarLeagueWarMember>::empty());
    assert(cwl@ =~= longer.update(round as int, longer[round as int]));
    while i < side.members.len()
        invariant
            i <= side.members@.len(),
            round < longer.len(),
            cwl.wars@.len() == longer.len(),
            cwl@ == longer.update(
                round as int,
                with_league_members(longer[round as int], side.members@.subrange(0, i as int)),
            ),
        decreases side.members@.len() - i,
    {
        let ghost held = cwl@;
        record_league_member(&mut cwl.wars[round], &side.members[i]);
        proof {
            assert(side.members@.subrange(0, i + 1).drop_last() =~= side.members@.subrange(
                0,
                i as int,
            ));
            assert(cwl@ =~= held.update(
                round as int,
                with_league_member(held[round as int], side.members@[i as int]),
            ));
        }
        i = i + 1;
    }
    assert(side.members@.subrange(0, i as int) =~= side.members@);
}

/// Records league wars in the rounds, one after another.
fn record_league_wars(cwl: &mut CwlStats, clan: &ClanTag, wars: &Vec<(usize, ClanWarLeagueWar)>)
    ensures
        final(cwl)@ == with_league_wars(old(cwl)@, clan@, wars@),
{
    let mut i: usize = 0;
    assert(wars@.subrange(0, 0) =~= Seq::<(usize, ClanWarLeagueWar)>::empty());
    while i < wars.len()
        invariant
            i <= wars@.len(),
            cwl@ == with_league_wars(old(cwl)@, clan@, wars@.subrange(0, i as int)),
        decreases wars@.len() - i,
    {
        record_league_war(cwl, clan, wars[i].0, &wars[i].1);
        proof {
            assert(wars@.subrange(0, i + 1).drop_last() =~= wars@.subrange(0, i as int));
        }
        i = i + 1;
    }
    assert(wars@.subrange(0, i as int) =~= wars@);
}

/// Records the wars of a league group for the clan `clan`, which is
/// registered, in the bundle of the season of the group. `wars` holds the
/// wars that were fetched, each with the index of its round. A war in which
/// the clan does not fight is passed over. Where a war of a later round
/// arrives before the earlier rounds, those rounds are entered empty.
pub fn update_cwl(
    group: &ClanWarLeagueGroup,
    wars: &Vec<(usize, ClanWarLeagueWar)>,
    clan: &ClanTag,
    storage: &mut Storage,
)
    requires
        has_key(old(storage)@, clan@),
    ensures
        final(storage)@ == with_league(
            old(storage)@,
            clan@,
            Season { year: group.season.year, month: group.season.month },
            wars@,
        ),
        store_wf(old(storage)@) ==> store_wf(final(storage)@),
{
    let war_season = Season::from(group.season);
    proof {
        if store_wf(storage@) {
            lemma_with_league_wf(storage@, clan@, war_season, wars@);
        }
    }
    match storage.get_mut(clan, &war_season) {
        Some(clan_season_stats) => {
            record_league_wars(&mut clan_season_stats.cwl, clan, wars);
        },
        None => {},
    }
}

/// No member occurs twice in any of `rounds`.
pub open spec fn rounds_wf(rounds: Seq<Roster<Seq<WarAttack>>>) -> bool {
    forall|round: int| 0 <= round < rounds.len() ==> distinct_keys(#[trigger] rounds[round])
}

/// Recording members keeps the members of a round distinct.
pub proof fn lemma_with_league_members_wf(
    round: Roster<Seq<WarAttack>>,
    members: Seq<ClanWarLeagueWarMember>,
)
    requires
        distinct_keys(round),
    ensures
        distinct_keys(with_league_members(round, members)),
    decreases members.len(),
{
    if members.len() > 0 {
        lemma_with_league_members_wf(round, members.drop_last());
        let before = with_league_members(round, members.drop_last());
        let member = members.last();
        lemma_with_entry_distinct(
            before,
            member.tag@,
            match member.attacks {
                Some(attacks) => league_attacks(attacks@),
                None => match value_of(before, member.tag@) {
                    Some(held) => held,
                    None => Seq::empty(),
                },
            },
        );
    }
}

/// Recording league wars keeps the members of every round distinct.
pub proof fn lemma_with_league_wars_wf(
    rounds: Seq<Roster<Seq<WarAttack>>>,
    clan: Seq<char>,
    wars: Seq<(usize, ClanWarLeagueWar)>,
)
    requires
        rounds_wf(rounds),
    ensures
        rounds_wf(with_league_wars(rounds, clan, wars)),
    decreases wars.len(),
{
    if wars.len() > 0 {
        lemma_with_league_wars_wf(rounds, clan, wars.drop_last());
        let before = with_league_wars(rounds, clan, wars.drop_last());
        let round = wars.last().0 as int;
        match own_side(wars.last().1, clan) {
            Some(side) => {
                let longer = extended_to(before, round);
                assert(rounds_wf(longer)) by {
                    assert forall|r: int| 0 <= r < longer.len() implies distinct_keys(
                        #[trigger] longer[r],
                    ) by {
                        if r < before.len() {
                            assert(longer[r] == before[r]);
                        }
                    }
                }
                lemma_with_league_members_wf(longer[round], side.members@);
            },
            None => {},
        }
    }
}

/// Recording league wars keeps a store well-formed.
pub proof fn lemma_with_league_wf(
    store: StorageView,
    clan: Seq<char>,
    season: Season,
    wars: Seq<(usize, ClanWarLeagueWar)>,
)
    requires
        store_wf(store),
    ensures
        store_wf(with_league(store, clan, season, wars)),
{
    let bundle = bundle_or_empty(store, clan, season);
    lemma_bundle_or_empty_wf(store, clan, season);
    lemma_with_league_wars_wf(bundle.cwl, clan, wars);
    lemma_store_stays_wf(
        store,
        clan,
        season,
        ClanStorageView { cwl: with_league_wars(bundle.cwl, clan, wars), ..bundle },
    );
}

/// Recording a league war never takes a round away.
pub proof fn lemma_league_war_keeps_rounds(
    rounds: Seq<Roster<Seq<WarAttack>>>,
    clan: Seq<char>,
    round: int,
    war: ClanWarLeagueWar,
)
    requires
        0 <= round,
    ensures
        with_league_war(rounds, clan, round, war).len() >= rounds.len(),
        own_side(war, clan) is Some ==> with_league_war(rounds, clan, round, war).len() > round,
        forall|i: int|
            0 <= i < rounds.len() && i != round ==> with_league_war(rounds, clan, round, war)[i]
                == #[trigger] rounds[i],
{
}

/// Recording league wars never takes a round away.
pub proof fn lemma_league_wars_keep_rounds(
    rounds: Seq<Roster<Seq<WarAttack>>>,
    clan: Seq<char>,
    wars: Seq<(usize, ClanWarLeagueWar)>,
)
    ensures
        with_league_wars(rounds, clan, wars).len() >= rounds.len(),
    decreases wars.len(),
{
    if wars.len() > 0 {
        lemma_league_wars_keep_rounds(rounds, clan, wars.drop_last());
        lemma_league_war_keeps_rounds(
            with_league_wars(rounds, clan, wars.drop_last()),
            clan,
            wars.last().0 as int,
            wars.last().1,
        );
    }
}

} // verus!
