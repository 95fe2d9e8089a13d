//! The statistics store: for each registered clan and each season, one
//! bundle of what was recorded.

pub mod chain;
pub mod document;
pub mod files;
pub mod replicated;
pub mod s3;
pub mod summary;

pub use summary::PlayerSummary;

use crate::collector::{ClanWarLeagueSeason, Time};
use crate::error::StoreError;
use crate::storage::document::{read_store, written_store, Persist, StorageDocument};
use crate::table::{
    distinct_keys, has_key, lemma_index_of, lemma_value_of_other, lemma_value_of_with_entry,
    value_of, with_entry, Key, Table,
};
use crate::tags::{ClanTag, PlayerTag};
use crate::text::{ascii, parse_year_month, write_year_month, year_month_of, year_month_text};
use vstd::prelude::*;
use vstd::string::*;

verus! {

/// A season: a month of a year. Everything recorded for a clan is filed
/// under the season in which it happened.
#[derive(Debug, PartialEq, Eq, Structural, Hash, Clone, Copy)]
pub struct Season {
    pub year: usize,
    pub month: usize,
}

impl View for Season {
    type V = Season;

    open spec fn view(&self) -> Season {
        *self
    }
}

impl Key for Season {
    fn same(&self, other: &Self) -> (b: bool) {
        self.year == other.year && self.month == other.month
    }
}

impl From<Time> for Season {
    fn from(value: Time) -> (season: Self) {
        Season { year: value.year, month: value.month }
    }
}

impl vstd::std_specs::convert::FromSpecImpl<Time> for Season {
    open spec fn obeys_from_spec() -> bool {
        true
    }

    /// The season of a day is its year and month.
    open spec fn from_spec(value: Time) -> Season {
        Season { year: value.year, month: value.month }
    }
}

impl From<ClanWarLeagueSeason> for Season {
    fn from(value: ClanWarLeagueSeason) -> (season: Self) {
        Season { year: value.year, month: value.month }
    }
}

impl vstd::std_specs::convert::FromSpecImpl<ClanWarLeagueSeason> for Season {
    open spec fn obeys_from_spec() -> bool {
        true
    }

    /// The season of a league season is the same year and month.
    open spec fn from_spec(value: ClanWarLeagueSeason) -> Season {
        Season { year: value.year, month: value.month }
    }
}

/// The year and the month that the clock of this machine shows, in UTC,
/// where it shows a time that can be told: the time since the Unix epoch of
/// `std::time::SystemTime::now()`, made a date by
/// `chrono::DateTime::from_timestamp` and read with `chrono::Datelike::year`
/// and `chrono::Datelike::month`. Nothing comes back where the clock stands
/// before 1970 or beyond the dates that `chrono` knows. All that is claimed
/// of a date that comes back is what `Datelike::month` documents: the month
/// is counted from 1 to 12.
#[verifier::external_body]
fn utc_year_month() -> (r: Option<(i32, u32)>)
    ensures
        r matches Some(found) ==> 1 <= found.1 <= 12,
{
    let since = std::time::SystemTime::now().duration_since(std::time::UNIX_EPOCH).ok()?;
    let now = chrono::DateTime::from_timestamp(i64::try_from(since.as_secs()).ok()?, 0)?;
    Some((chrono::Datelike::year(&now), chrono::Datelike::month(&now)))
}

impl Season {
    /// The season of a year and a month of the calendar. A year before the
    /// year 0 has no season of its own: its number is cut to the width of
    /// `usize`.
    pub fn from_calendar(year: i32, month: u32) -> (season: Season)
        ensures
            season.year == year as usize,
            season.month == month,
    {
        Season { year: #[verifier::truncate] (year as usize), month: month as usize }
    }

    /// The season that is running now, by the clock of this machine in UTC;
    /// none where the clock shows no date, as it does where it stands before
    /// 1970. Nothing is proved of the clock but that the month it shows is a
    /// month of the calendar.
    pub fn current() -> (r: Option<Season>)
        ensures
            r matches Some(season) ==> 1 <= season.month <= 12,
    {
        match utc_year_month() {
            Some((year, month)) => Some(Season::from_calendar(year, month)),
            None => None,
        }
    }

    /// The season before this one; the first month of the year 0 has none
    /// and stays.
    pub fn previous(&self) -> (before: Season)
        ensures
            before == if self.month > 1 {
                Season { year: self.year, month: (self.month - 1) as usize }
            } else if self.year > 0 {
                Season { year: (self.year - 1) as usize, month: 12 }
            } else {
                *self
            },
    {
        if self.month > 1 {
            Season { year: self.year, month: self.month - 1 }
        } else if self.year > 0 {
            Season { year: self.year - 1, month: 12 }
        } else {
            *self
        }
    }

    /// Reads a season from `YYYY-MM`.
    pub fn parse(raw: &str) -> (r: Result<Season, StoreError>)
        ensures
            match r {
                Ok(season) => year_month_of(raw.spec_bytes()) == Some((season.year, season.month)),
                Err(e) => year_month_of(raw.spec_bytes()) is None && e == StoreError::ConfigError,
            },
    {
        match parse_year_month(raw) {
            Some((year, month)) => Ok(Season { year, month }),
            None => Err(StoreError::ConfigError),
        }
    }

    /// Writes the season as `YYYY-MM`.
    pub fn to_text(&self) -> (r: String)
        ensures
            r@ == ascii(year_month_text(self.year, self.month)),
    {
        write_year_month(self.year, self.month)
    }
}

/// A day and a league season of the same year and month give the same
/// season.
pub proof fn lemma_season_derivations_agree(day: Time, league: ClanWarLeagueSeason)
    requires
        day.year == league.year,
        day.month == league.month,
    ensures
        <Season as vstd::std_specs::convert::FromSpec<Time>>::from_spec(day) == <Season as vstd::std_specs::convert::FromSpec<
            ClanWarLeagueSeason,
        >>::from_spec(league),
{
}

/// Entries under the tags of players, in the order in which the players
/// first appeared.
pub type Roster<V> = Seq<(Seq<char>, V)>;

/// One attack of a war.
#[derive(Debug, PartialEq, Eq, Structural, Clone, Copy)]
pub struct WarAttack {
    /// How much of the base was destroyed, in percent.
    pub destruction: usize,
    /// The stars won, from none to three.
    pub stars: usize,
    /// How long the attack took, in seconds.
    pub duration: usize,
}

/// The attacks of one player in one war.
#[derive(Debug, Clone, PartialEq)]
pub struct MemberWarStats {
    pub attacks: Vec<WarAttack>,
}

impl View for MemberWarStats {
    type V = Seq<WarAttack>;

    open spec fn view(&self) -> Seq<WarAttack> {
        self.attacks@
    }
}

/// One round of the clan war league: the attacks of each player.
#[derive(Debug, Clone, PartialEq)]
pub struct CwlWarStats {
    pub members: Table<PlayerTag, MemberWarStats>,
}

impl View for CwlWarStats {
    type V = Roster<Seq<WarAttack>>;

    open spec fn view(&self) -> Roster<Seq<WarAttack>> {
        self.members@
    }
}

impl Default for CwlWarStats {
    fn default() -> (round: Self)
        ensures
            round@ == Seq::<(Seq<char>, Seq<WarAttack>)>::empty(),
    {
        CwlWarStats { members: Table::new() }
    }
}

/// The rounds of the clan war league, the first round first.
#[derive(Debug, Clone, PartialEq)]
pub struct CwlStats {
    pub wars: Vec<CwlWarStats>,
}

impl View for CwlStats {
    type V = Seq<Roster<Seq<WarAttack>>>;

    open spec fn view(&self) -> Seq<Roster<Seq<WarAttack>>> {
        Seq::new(self.wars@.len(), |i: int| self.wars@[i]@)
    }
}

impl Default for CwlStats {
    fn default() -> (rounds: Self)
        ensures
            rounds@ == Seq::<Roster<Seq<WarAttack>>>::empty(),
    {
        let rounds = CwlStats { wars: Vec::new() };
        assert(rounds@ =~= Seq::<Roster<Seq<WarAttack>>>::empty());
        rounds
    }
}

/// A regular war: the day it began, and the attacks of each player.
#[derive(Debug, Clone, PartialEq)]
pub struct WarStats {
    pub start_time: Time,
    pub members: Table<PlayerTag, MemberWarStats>,
}

/// What a [`WarStats`] holds.
pub struct WarStatsView {
    pub start_time: Time,
    pub members: Roster<Seq<WarAttack>>,
}

impl View for WarStats {
    type V = WarStatsView;

    open spec fn view(&self) -> WarStatsView {
        WarStatsView { start_time: self.start_time, members: self.members@ }
    }
}

/// What one player looted on one raid weekend.
#[derive(Debug, PartialEq, Eq, Structural, Clone, Copy)]
pub struct RaidMember {
    pub looted: usize,
}

impl View for RaidMember {
    type V = RaidMember;

    open spec fn view(&self) -> RaidMember {
        *self
    }
}

/// A raid weekend: the day it began, and the loot of each player.
#[derive(Debug, Clone, PartialEq)]
pub struct RaidWeekendStats {
    pub start_time: Time,
    pub members: Table<PlayerTag, RaidMember>,
}

/// What a [`RaidWeekendStats`] holds.
pub struct RaidWeekendStatsView {
    pub start_time: Time,
    pub members: Roster<RaidMember>,
}

impl View for RaidWeekendStats {
    type V = RaidWeekendStatsView;

    open spec fn view(&self) -> RaidWeekendStatsView {
        RaidWeekendStatsView { start_time: self.start_time, members: self.members@ }
    }
}

/// The clan games score of one player: the score when the player was first
/// seen in the season, and the score seen last.
#[derive(Debug, PartialEq, Eq, Structural, Clone, Copy)]
pub struct PlayerGamesStats {
    pub start_score: Option<usize>,
    pub end_score: usize,
}

impl View for PlayerGamesStats {
    type V = PlayerGamesStats;

    open spec fn view(&self) -> PlayerGamesStats {
        *self
    }
}

/// Everything recorded for one clan in one season.
#[derive(Debug, Clone, PartialEq)]
pub struct ClanStorage {
    /// The rounds of the clan war league.
    pub cwl: CwlStats,
    /// The regular wars, by the day on which each began.
    pub wars: Table<Time, WarStats>,
    /// The clan games scores.
    pub games: Table<PlayerTag, PlayerGamesStats>,
    /// The raid weekends, by the day on which each began.
    pub raid_weekend: Table<Time, RaidWeekendStats>,
    /// The names under which the players are shown.
    pub player_names: Table<PlayerTag, String>,
}

/// What a [`ClanStorage`] holds.
pub struct ClanStorageView {
    pub cwl: Seq<Roster<Seq<WarAttack>>>,
    pub wars: Seq<(Time, WarStatsView)>,
    pub games: Roster<PlayerGamesStats>,
    pub raid_weekend: Seq<(Time, RaidWeekendStatsView)>,
    pub player_names: Roster<Seq<char>>,
}

impl View for ClanStorage {
    type V = ClanStorageView;

    open spec fn view(&self) -> ClanStorageView {
        ClanStorageView {
            cwl: self.cwl@,
            wars: self.wars@,
            games: self.games@,
            raid_weekend: self.raid_weekend@,
            player_names: self.player_names@,
        }
    }
}

/// The bundle in which nothing is recorded.
pub open spec fn empty_bundle() -> ClanStorageView {
    ClanStorageView {
        cwl: Seq::empty(),
        wars: Seq::empty(),
        games: Seq::empty(),
        raid_weekend: Seq::empty(),
        player_names: Seq::empty(),
    }
}

impl Default for ClanStorage {
    fn default() -> (bundle: Self)
        ensures
            bundle@ == empty_bundle(),
            bundle_wf(bundle@),
    {
        ClanStorage {
            cwl: CwlStats::default(),
            wars: Table::new(),
            games: Table::new(),
            raid_weekend: Table::new(),
            player_names: Table::new(),
        }
    }
}

/// What a [`Storage`] holds: for each registered clan, in the order of
/// registration, its seasons with their bundles.
pub type StorageView = Seq<(Seq<char>, Seq<(Season, ClanStorageView)>)>;

/// The bundle of `clan` for `season`, where the store holds one.
pub open spec fn bundle_of(store: StorageView, clan: Seq<char>, season: Season) -> Option<
    ClanStorageView,
> {
    match value_of(store, clan) {
        Some(seasons) => value_of(seasons, season),
        None => None,
    }
}

/// The store after `clan` was registered: unchanged where the clan is known,
/// else with the clan as its last entry, without seasons.
pub open spec fn with_clan(store: StorageView, clan: Seq<char>) -> StorageView {
    if has_key(store, clan) {
        store
    } else {
        store.push((clan, Seq::empty()))
    }
}

/// The store with `bundle` as the bundle of `clan` for `season`; unchanged
/// where the clan is not registered.
pub open spec fn with_bundle(
    store: StorageView,
    clan: Seq<char>,
    season: Season,
    bundle: ClanStorageView,
) -> StorageView {
    match value_of(store, clan) {
        Some(seasons) => with_entry(store, clan, with_entry(seasons, season, bundle)),
        None => store,
    }
}

/// The bundle that is handed out for `clan` and `season`: the one that the
/// store holds, or the empty one.
pub open spec fn bundle_or_empty(store: StorageView, clan: Seq<char>, season: Season)
    -> ClanStorageView {
    match bundle_of(store, clan, season) {
        Some(bundle) => bundle,
        None => empty_bundle(),
    }
}

/// No key occurs twice in any table of `bundle`.
pub open spec fn bundle_wf(bundle: ClanStorageView) -> bool {
    &&& forall|round: int| 0 <= round < bundle.cwl.len() ==> distinct_keys(#[trigger] bundle.cwl[round])
    &&& distinct_keys(bundle.wars)
    &&& forall|i: int| 0 <= i < bundle.wars.len() ==> war_wf((#[trigger] bundle.wars[i]).1)
    &&& distinct_keys(bundle.games)
    &&& distinct_keys(bundle.raid_weekend)
    &&& forall|i: int|
        0 <= i < bundle.raid_weekend.len() ==> raid_wf((#[trigger] bundle.raid_weekend[i]).1)
    &&& distinct_keys(bundle.player_names)
}

/// No member occurs twice in `war`.
pub open spec fn war_wf(war: WarStatsView) -> bool {
    distinct_keys(war.members)
}

/// No member occurs twice in `raid`.
pub open spec fn raid_wf(raid: RaidWeekendStatsView) -> bool {
    distinct_keys(raid.members)
}

/// No season occurs twice in `seasons`, and no key in any table of their
/// bundles.
pub open spec fn seasons_wf(seasons: Seq<(Season, ClanStorageView)>) -> bool {
    &&& distinct_keys(seasons)
    &&& forall|i: int| 0 <= i < seasons.len() ==> bundle_wf((#[trigger] seasons[i]).1)
}

/// No clan occurs twice in `store`, no season twice for a clan, and no key
/// twice in any table of a bundle.
pub open spec fn store_wf(store: StorageView) -> bool {
    &&& distinct_keys(store)
    &&& forall|i: int| 0 <= i < store.len() ==> seasons_wf((#[trigger] store[i]).1)
}

/// The bundle that is handed out of a well-formed store is well-formed.
pub proof fn lemma_bundle_or_empty_wf(store: StorageView, clan: Seq<char>, season: Season)
    requires
        store_wf(store),
    ensures
        bundle_wf(bundle_or_empty(store, clan, season)),
{
    crate::table::lemma_value_of_holds(
        store,
        clan,
        |seasons: Seq<(Season, ClanStorageView)>| seasons_wf(seasons),
    );
    match value_of(store, clan) {
        Some(seasons) => {
            crate::table::lemma_value_of_holds(
                seasons,
                season,
                |bundle: ClanStorageView| bundle_wf(bundle),
            );
        },
        None => {},
    }
}

/// Registering a clan keeps a store well-formed, and so does writing a
/// well-formed bundle.
pub proof fn lemma_store_stays_wf(
    store: StorageView,
    clan: Seq<char>,
    season: Season,
    written: ClanStorageView,
)
    requires
        store_wf(store),
    ensures
        store_wf(with_clan(store, clan)),
        bundle_wf(written) ==> store_wf(with_bundle(store, clan, season, written)),
{
    lemma_index_of(store, clan);
    assert(store_wf(with_clan(store, clan))) by {
        let after = with_clan(store, clan);
        assert forall|i: int| 0 <= i < after.len() implies seasons_wf((#[trigger] after[i]).1) by {
            if i < store.len() {
                assert(after[i] == store[i]);
            }
        }
    }
    if bundle_wf(written) {
        match value_of(store, clan) {
            Some(seasons) => {
                let put = with_entry(seasons, season, written);
                crate::table::lemma_value_of_holds(
                    store,
                    clan,
                    |seasons: Seq<(Season, ClanStorageView)>| seasons_wf(seasons),
                );
                crate::table::lemma_with_entry_distinct(seasons, season, written);
                crate::table::lemma_with_entry_values(
                    seasons,
                    season,
                    written,
                    |bundle: ClanStorageView| bundle_wf(bundle),
                );
                crate::table::lemma_with_entry_distinct(store, clan, put);
                crate::table::lemma_with_entry_values(
                    store,
                    clan,
                    put,
                    |seasons: Seq<(Season, ClanStorageView)>| seasons_wf(seasons),
                );
            },
            None => {},
        }
    }
}

/// The statistics of all registered clans.
#[derive(Debug, Clone, PartialEq)]
pub struct Storage {
    clans: Table<ClanTag, Table<Season, ClanStorage>>,
}

impl View for Storage {
    type V = StorageView;

    closed spec fn view(&self) -> StorageView {
        self.clans@
    }
}

impl Storage {
    /// A store without clans.
    pub fn empty() -> (store: Self)
        ensures
            store@ == Seq::<(Seq<char>, Seq<(Season, ClanStorageView)>)>::empty(),
            store_wf(store@),
    {
        Storage { clans: Table::new() }
    }

    /// Registers `tag`. A clan that is registered already stays as it is.
    pub fn register_clan(&mut self, tag: ClanTag)
        ensures
            final(self)@ == with_clan(old(self)@, tag@),
            has_key(final(self)@, tag@),
            !has_key(old(self)@, tag@) ==> forall|season: Season| #[trigger]
                bundle_of(final(self)@, tag@, season) is None,
            store_wf(old(self)@) ==> store_wf(final(self)@),
    {
        proof {
            lemma_register_twice(self@, tag@);
            let store = self@;
            if store_wf(store) {
                lemma_store_stays_wf(store, tag@, Season { year: 0, month: 0 }, empty_bundle());
            }
            if !has_key(store, tag@) {
                assert forall|season: Season| #[trigger]
                    bundle_of(with_clan(store, tag@), tag@, season) is None by {
                    lemma_new_clan_starts_empty(store, tag@, season);
                }
            }
        }
        if self.clans.contains_key(&tag) {
            return ;
        }
        proof {
            lemma_index_of(self@, tag@);
        }
        self.clans.insert(tag, Table::new());
    }

    /// The bundle of a registered clan for `season`, to be changed in place.
    /// The first access to a season creates its bundle, empty; for a clan
    /// that is not registered there is no bundle and none is created.
    pub fn get_mut(&mut self, tag: &ClanTag, season: &Season) -> (r: Option<&mut ClanStorage>)
        ensures
            match r {
                Some(bundle) => {
                    &&& has_key(old(self)@, tag@)
                    &&& bundle@ == bundle_or_empty(old(self)@, tag@, *season)
                    &&& final(self)@ == with_bundle(old(self)@, tag@, *season, final(bundle)@)
                    &&& bundle_of(final(self)@, tag@, *season) == Some(final(bundle)@)
                },
                None => !has_key(old(self)@, tag@) && final(self)@ == old(self)@,
            },
            store_wf(old(self)@) ==> (r matches Some(bundle) ==> bundle_wf(bundle@)),
            store_wf(old(self)@) ==> (r matches Some(bundle) ==> (bundle_wf(final(bundle)@)
                ==> store_wf(final(self)@))),
    {
        proof {
            let store = self@;
            if store_wf(store) {
                lemma_bundle_or_empty_wf(store, tag@, *season);
                assert forall|written: ClanStorageView| #[trigger]
                    bundle_wf(written) implies store_wf(
                    with_bundle(store, tag@, *season, written),
                ) by {
                    lemma_store_stays_wf(store, tag@, *season, written);
                }
            }
            assert forall|written: ClanStorageView| has_key(store, tag@) implies bundle_of(
                #[trigger] with_bundle(store, tag@, *season, written),
                tag@,
                *season,
            ) == Some(written) by {
                lemma_index_of(store, tag@);
                let seasons = value_of(store, tag@).unwrap();
                lemma_value_of_with_entry(store, tag@, with_entry(seasons, *season, written));
                lemma_value_of_with_entry(seasons, *season, written);
            }
        }
        match self.clans.get_mut(tag) {
            Some(seasons) => Some(seasons.get_or_insert(*season, ClanStorage::default())),
            None => None,
        }
    }

    /// The bundle of `tag` for `season`, where there is one.
    pub fn get(&self, tag: &ClanTag, season: &Season) -> (r: Option<&ClanStorage>)
        ensures
            match r {
                Some(bundle) => bundle_of(self@, tag@, *season) == Some(bundle@),
                None => bundle_of(self@, tag@, *season) is None,
            },
    {
        match self.clans.get(tag) {
            Some(seasons) => seasons.get(season),
            None => None,
        }
    }

    /// Whether `tag` is registered.
    pub fn has_clan(&self, tag: &ClanTag) -> (b: bool)
        ensures
            b == has_key(self@, tag@),
    {
        self.clans.contains_key(tag)
    }

    /// The store as the document that is persisted.
    pub fn to_document(&self) -> (document: StorageDocument)
        ensures
            document.deep_view() == written_store(self@),
    {
        self.clans.to_form()
    }

    /// The store that `document` holds. A document with a key or a value
    /// that cannot be read is refused as a whole.
    pub fn from_document(document: &StorageDocument) -> (r: Result<Storage, StoreError>)
        ensures
            match r {
                Ok(store) => read_store(document.deep_view()) == Some(store@),
                Err(e) => read_store(document.deep_view()) is None && e
                    == StoreError::DeserializeError,
            },
    {
        match Table::from_form(document) {
            Some(clans) => Ok(Storage { clans }),
            None => Err(StoreError::DeserializeError),
        }
    }
}

/// A bundle that was written for a registered clan is the bundle that is
/// read for that clan and season afterwards.
pub proof fn lemma_read_what_was_written(
    store: StorageView,
    clan: Seq<char>,
    season: Season,
    written: ClanStorageView,
)
    ensures
        bundle_of(with_bundle(with_clan(store, clan), clan, season, written), clan, season)
            == Some(written),
{
    let registered = with_clan(store, clan);
    lemma_index_of(store, clan);
    lemma_index_of(registered, clan);
    let seasons = value_of(registered, clan).unwrap();
    lemma_value_of_with_entry(registered, clan, with_entry(seasons, season, written));
    lemma_value_of_with_entry(seasons, season, written);
}

/// A clan that is newly registered has no bundle for any season, so that the
/// first access to a season finds the empty bundle.
pub proof fn lemma_new_clan_starts_empty(store: StorageView, clan: Seq<char>, season: Season)
    requires
        !has_key(store, clan),
    ensures
        has_key(with_clan(store, clan), clan),
        bundle_of(with_clan(store, clan), clan, season) is None,
        bundle_or_empty(with_clan(store, clan), clan, season) == empty_bundle(),
{
    let registered = with_clan(store, clan);
    lemma_index_of(store, clan);
    crate::table::lemma_index_of_is(registered, clan, store.len() as int);
}

/// Registering a clan a second time changes nothing.
pub proof fn lemma_register_twice(store: StorageView, clan: Seq<char>)
    ensures
        has_key(with_clan(store, clan), clan),
        with_clan(with_clan(store, clan), clan) == with_clan(store, clan),
{
    lemma_index_of(store, clan);
    if !has_key(store, clan) {
        crate::table::lemma_index_of_is(with_clan(store, clan), clan, store.len() as int);
    }
}

/// Writing the bundle of one clan and season changes no bundle of another
/// clan.
pub proof fn lemma_write_leaves_other_clans(
    store: StorageView,
    clan: Seq<char>,
    season: Season,
    written: ClanStorageView,
    other: Seq<char>,
    other_season: Season,
)
    requires
        other != clan,
    ensures
        bundle_of(with_bundle(store, clan, season, written), other, other_season) == bundle_of(
            store,
            other,
            other_season,
        ),
{
    match value_of(store, clan) {
        Some(seasons) => {
            lemma_value_of_other(store, clan, with_entry(seasons, season, written), other);
        },
        None => {},
    }
}

} // verus!
