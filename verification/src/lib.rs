//! Season-partitioned clan statistics: the store and its persisted
//! document, the rules that fold the reports of the game into the store, the
//! summary of each player with the sheet and the messages that show it, and
//! the decisions of the replicated persistence layer.

pub mod collector;
pub mod error;
pub mod excelstats;
pub mod order;
pub mod report;
pub mod storage;
pub mod table;
pub mod tags;
pub mod text;

pub use collector::{
    has_weekend_to_record, is_clan_games_achievement, league_wars_to_fetch, record_clan_games,
    update_clan_games, update_cwl, update_names, update_raids, update_war, war_update,
    CapitalRaidWeekend, CapitalRaidWeekendLogs, CapitalRaidWeekendMember, ClanBadges, ClanInfo,
    ClanMember, ClanWarLeagueAttack, ClanWarLeagueClan, ClanWarLeagueClanMember,
    ClanWarLeagueGroup, ClanWarLeagueRound, ClanWarLeagueSeason, ClanWarLeagueWar,
    ClanWarLeagueWarClan, ClanWarLeagueWarMember, ClanWarLeagueWarState, CurrentWar,
    CurrentWarState, PlayerAchievement, PlayerInfo, Time, WarClan, WarClanMember,
    WarClanMemberAttack, WarUpdate,
};
pub use error::StoreError;
pub use excelstats::{ExcelStats, SheetRow};
pub use order::{bytes_precede, name_order};
pub use report::{generate_batches, name_column_width, summaries_by_name};
pub use storage::chain::{parse_storage, BackendChain};
pub use storage::document::{
    ClanDocument, MembersDocument, Persist, RaidWeekendDocument, StorageDocument, WarDocument,
};
pub use storage::files::FileStorage;
pub use storage::replicated::{load_next, load_start, save_outcome, LoadStep, Replica, Replicated};
pub use storage::s3::S3Storage;
pub use storage::{
    ClanStorage, CwlStats, CwlWarStats, MemberWarStats, PlayerGamesStats, PlayerSummary,
    RaidMember, RaidWeekendStats, Season, Storage, WarAttack, WarStats,
};
pub use table::{Key, Table};
pub use tags::{ClanTag, PlayerTag, TagVisitor, WarTag};
