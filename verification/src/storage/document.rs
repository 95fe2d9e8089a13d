//! The persisted document: the store as nested objects whose keys are texts,
//! and the store that a document holds.

use crate::collector::time::{fits_timestamp, lemma_time_text_round_trip, time_of, time_text};
use crate::collector::Time;
use crate::storage::{
    ClanStorage, ClanStorageView, CwlStats, CwlWarStats, MemberWarStats, PlayerGamesStats,
    RaidMember, RaidWeekendStats, RaidWeekendStatsView, Roster, Season, StorageView, WarAttack,
    WarStats, WarStatsView,
};
use crate::table::{distinct_keys, index_of, lemma_index_of, with_entry, Key, Table};
use crate::tags::{is_tag, ClanTag, PlayerTag};
use crate::text::{ascii, lemma_ascii_bytes, lemma_year_month_round_trip, year_month_of, year_month_text};
use vstd::prelude::*;
use vstd::string::*;

verus! {

/// A part of the store that has a form in the persisted document.
pub trait Persist: View + Sized {
    /// The form that the part has in the document.
    type Form: DeepView;

    /// What is written for `value`.
    spec fn written(value: Self::V) -> <Self::Form as DeepView>::V;

    /// What is read from `form`, where it can be read.
    spec fn read(form: <Self::Form as DeepView>::V) -> Option<Self::V>;

    /// `value` can be read back from what is written for it.
    spec fn faithful(value: Self::V) -> bool;

    /// Writes the part.
    fn to_form(&self) -> (form: Self::Form)
        ensures
            form.deep_view() == Self::written(self@),
    ;

    /// Reads a part.
    fn from_form(form: &Self::Form) -> (r: Option<Self>)
        ensures
            match r {
                Some(part) => Self::read(form.deep_view()) == Some(part@),
                None => Self::read(form.deep_view()) is None,
            },
    ;

    /// What is written for a faithful value is read as that value.
    proof fn lemma_read_written(value: Self::V)
        requires
            Self::faithful(value),
        ensures
            Self::read(Self::written(value)) == Some(value),
    ;
}

impl Persist for ClanTag {
    type Form = String;

    open spec fn written(value: Seq<char>) -> Seq<char> {
        value
    }

    open spec fn read(form: Seq<char>) -> Option<Seq<char>> {
        if is_tag(form) {
            Some(form)
        } else {
            None
        }
    }

    open spec fn faithful(value: Seq<char>) -> bool {
        is_tag(value)
    }

    fn to_form(&self) -> (form: String) {
        self.0.clone()
    }

    fn from_form(form: &String) -> (r: Option<Self>) {
        match ClanTag::parse(form.as_str()) {
            Ok(tag) => Some(tag),
            Err(_) => None,
        }
    }

    proof fn lemma_read_written(value: Seq<char>) {
    }
}

impl Persist for PlayerTag {
    type Form = String;

    open spec fn written(value: Seq<char>) -> Seq<char> {
        value
    }

    open spec fn read(form: Seq<char>) -> Option<Seq<char>> {
        if is_tag(form) {
            Some(form)
        } else {
            None
        }
    }

    open spec fn faithful(value: Seq<char>) -> bool {
        is_tag(value)
    }

    fn to_form(&self) -> (form: String) {
        self.0.clone()
    }

    fn from_form(form: &String) -> (r: Option<Self>) {
        match PlayerTag::parse(form.as_str()) {
            Ok(tag) => Some(tag),
            Err(_) => None,
        }
    }

    proof fn lemma_read_written(value: Seq<char>) {
    }
}

impl Persist for Season {
    type Form = String;

    open spec fn written(value: Season) -> Seq<char> {
        ascii(year_month_text(value.year, value.month))
    }

    open spec fn read(form: Seq<char>) -> Option<Season> {
        match year_month_of(vstd::utf8::encode_utf8(form)) {
            Some((year, month)) => Some(Season { year, month }),
            None => None,
        }
    }

    open spec fn faithful(value: Season) -> bool {
        true
    }

    fn to_form(&self) -> (form: String) {
        self.to_text()
    }

    fn from_form(form: &String) -> (r: Option<Self>) {
        match Season::parse(form.as_str()) {
            Ok(season) => Some(season),
            Err(_) => None,
        }
    }

    proof fn lemma_read_written(value: Season) {
        lemma_year_month_round_trip(value.year, value.month);
        lemma_ascii_bytes(year_month_text(value.year, value.month));
    }
}

impl Persist for Time {
    type Form = String;

    open spec fn written(value: Time) -> Seq<char> {
        ascii(time_text(value))
    }

    open spec fn read(form: Seq<char>) -> Option<Time> {
        time_of(vstd::utf8::encode_utf8(form))
    }

    open spec fn faithful(value: Time) -> bool {
        fits_timestamp(value)
    }

    fn to_form(&self) -> (form: String) {
        self.to_text()
    }

    fn from_form(form: &String) -> (r: Option<Self>) {
        match Time::parse(form.as_str()) {
            Ok(time) => Some(time),
            Err(_) => None,
        }
    }

    proof fn lemma_read_written(value: Time) {
        lemma_time_text_round_trip(value);
        lemma_ascii_bytes(time_text(value));
    }
}

impl Persist for String {
    type Form = String;

    open spec fn written(value: Seq<char>) -> Seq<char> {
        value
    }

    open spec fn read(form: Seq<char>) -> Option<Seq<char>> {
        Some(form)
    }

    open spec fn faithful(value: Seq<char>) -> bool {
        true
    }

    fn to_form(&self) -> (form: String) {
        self.clone()
    }

    fn from_form(form: &String) -> (r: Option<Self>) {
        Some(form.clone())
    }

    proof fn lemma_read_written(value: Seq<char>) {
    }
}

/// What is written for the entries of a table: each key and each value in
/// its own form, in the order of the entries.
pub open spec fn written_entries<K: Persist, V: Persist>(entries: Seq<(K::V, V::V)>) -> Seq<
    (<K::Form as DeepView>::V, <V::Form as DeepView>::V),
> {
    Seq::new(entries.len(), |i: int| (K::written(entries[i].0), V::written(entries[i].1)))
}

/// The entries that are read from `form`: each key and each value is read,
/// and put into the table in the order of the document, a later entry in
/// the place of an earlier one with the same key. Nothing is read where a
/// key or a value cannot be read.
pub open spec fn read_entries<K: Persist, V: Persist>(
    form: Seq<(<K::Form as DeepView>::V, <V::Form as DeepView>::V)>,
) -> Option<Seq<(K::V, V::V)>>
    decreases form.len(),
{
    if form.len() == 0 {
        Some(Seq::empty())
    } else {
        match (read_entries::<K, V>(form.drop_last()), K::read(form.last().0), V::read(form.last().1)) {
            (Some(before), Some(key), Some(value)) => Some(with_entry(before, key, value)),
            _ => None,
        }
    }
}

/// The entries have distinct keys, and each key and each value is faithful.
pub open spec fn faithful_entries<K: Persist, V: Persist>(entries: Seq<(K::V, V::V)>) -> bool {
    &&& distinct_keys(entries)
    &&& forall|i: int|
        0 <= i < entries.len() ==> K::faithful((#[trigger] entries[i]).0) && V::faithful(entries[i].1)
}

/// Faithful entries are read back from what is written for them.
pub proof fn lemma_read_written_entries<K: Persist, V: Persist>(entries: Seq<(K::V, V::V)>)
    requires
        faithful_entries::<K, V>(entries),
    ensures
        read_entries::<K, V>(written_entries::<K, V>(entries)) == Some(entries),
    decreases entries.len(),
{
    if entries.len() > 0 {
        let front = entries.drop_last();
        let last = entries.last();
        assert(faithful_entries::<K, V>(front)) by {
            assert forall|i: int| 0 <= i < front.len() implies K::faithful((#[trigger] front[i]).0)
                && V::faithful(front[i].1) by {
                assert(front[i] == entries[i]);
            }
            assert forall|i: int, j: int| 0 <= i < j < front.len() implies (#[trigger] front[i]).0 != (
            #[trigger] front[j]).0 by {
                assert(front[i] == entries[i]);
                assert(front[j] == entries[j]);
            }
        }
        lemma_read_written_entries::<K, V>(front);
        assert(written_entries::<K, V>(entries).drop_last() =~= written_entries::<K, V>(front));
        assert(K::faithful(entries[entries.len() - 1].0));
        K::lemma_read_written(last.0);
        V::lemma_read_written(last.1);
        lemma_index_of(front, last.0);
        assert(index_of(front, last.0) < 0) by {
            if index_of(front, last.0) >= 0 {
                let i = index_of(front, last.0);
                assert(front[i] == entries[i]);
                assert(entries[i].0 != entries[entries.len() - 1].0);
            }
        }
        assert(with_entry(front, last.0, last.1) =~= entries);
    }
}

impl<K: Key + Persist, V: Persist> Persist for Table<K, V> {
    type Form = Vec<(K::Form, V::Form)>;

    open spec fn written(value: Seq<(K::V, V::V)>) -> Seq<
        (<K::Form as DeepView>::V, <V::Form as DeepView>::V),
    > {
        written_entries::<K, V>(value)
    }

    open spec fn read(form: Seq<(<K::Form as DeepView>::V, <V::Form as DeepView>::V)>) -> Option<
        Seq<(K::V, V::V)>,
    > {
        read_entries::<K, V>(form)
    }

    open spec fn faithful(value: Seq<(K::V, V::V)>) -> bool {
        faithful_entries::<K, V>(value)
    }

    fn to_form(&self) -> (form: Vec<(K::Form, V::Form)>) {
        let mut form: Vec<(K::Form, V::Form)> = Vec::new();
        let mut i: usize = 0;
        while i < self.len()
            invariant
                i <= self@.len(),
                form@.len() == i,
                forall|j: int|
                    0 <= j < i ==> (#[trigger] form@[j]).0.deep_view() == K::written(self@[j].0)
                        && form@[j].1.deep_view() == V::written(self@[j].1),
            decreases self@.len() - i,
        {
            form.push((self.key_at(i).to_form(), self.value_at(i).to_form()));
            i = i + 1;
        }
        assert(form.deep_view() =~= written_entries::<K, V>(self@));
        form
    }

    fn from_form(form: &Vec<(K::Form, V::Form)>) -> (r: Option<Self>)
        ensures
            r matches Some(table) ==> table.wf(),
    {
        let ghost whole = form.deep_view();
        let mut table: Table<K, V> = Table::new();
        let mut i: usize = 0;
        assert(whole.subrange(0, 0) =~= Seq::empty());
        while i < form.len()
            invariant
                i <= form@.len(),
                whole == form.deep_view(),
                whole.len() == form@.len(),
                table.wf(),
                read_entries::<K, V>(whole.subrange(0, i as int)) == Some(table@),
            decreases form@.len() - i,
        {
            proof {
                assert(whole.subrange(0, i + 1).drop_last() =~= whole.subrange(0, i as int));
                assert(whole.subrange(0, i + 1).last() == (
                    form@[i as int].0.deep_view(),
                    form@[i as int].1.deep_view(),
                ));
            }
            let key = match K::from_form(&form[i].0) {
                Some(key) => key,
                None => {
                    proof {
                        lemma_read_fails_later::<K, V>(whole, i + 1);
                    }
                    return None;
                },
            };
            let value = match V::from_form(&form[i].1) {
                Some(value) => value,
                None => {
                    proof {
                        lemma_read_fails_later::<K, V>(whole, i + 1);
                    }
                    return None;
                },
            };
            table.insert(key, value);
            i = i + 1;
        }
        assert(whole.subrange(0, i as int) =~= whole);
        Some(table)
    }

    proof fn lemma_read_written(value: Seq<(K::V, V::V)>) {
        lemma_read_written_entries::<K, V>(value);
    }
}

/// Where the first `k` entries of a document cannot be read, the whole
/// cannot.
pub proof fn lemma_read_fails_later<K: Persist, V: Persist>(
    form: Seq<(<K::Form as DeepView>::V, <V::Form as DeepView>::V)>,
    k: int,
)
    requires
        0 <= k <= form.len(),
        read_entries::<K, V>(form.subrange(0, k)) is None,
    ensures
        read_entries::<K, V>(form) is None,
    decreases form.len() - k,
{
    if k == form.len() {
        assert(form.subrange(0, k) =~= form);
    } else {
        assert(form.subrange(0, k + 1).drop_last() =~= form.subrange(0, k));
        lemma_read_fails_later::<K, V>(form, k + 1);
    }
}

impl DeepView for WarAttack {
    type V = WarAttack;

    open spec fn deep_view(&self) -> WarAttack {
        *self
    }
}

impl DeepView for PlayerGamesStats {
    type V = PlayerGamesStats;

    open spec fn deep_view(&self) -> PlayerGamesStats {
        *self
    }
}

impl DeepView for RaidMember {
    type V = RaidMember;

    open spec fn deep_view(&self) -> RaidMember {
        *self
    }
}

impl Persist for PlayerGamesStats {
    type Form = PlayerGamesStats;

    open spec fn written(value: PlayerGamesStats) -> PlayerGamesStats {
        value
    }

    open spec fn read(form: PlayerGamesStats) -> Option<PlayerGamesStats> {
        Some(form)
    }

    open spec fn faithful(value: PlayerGamesStats) -> bool {
        true
    }

    fn to_form(&self) -> (form: PlayerGamesStats) {
        *self
    }

    fn from_form(form: &PlayerGamesStats) -> (r: Option<Self>) {
        Some(*form)
    }

    proof fn lemma_read_written(value: PlayerGamesStats) {
    }
}

impl Persist for RaidMember {
    type Form = RaidMember;

    open spec fn written(value: RaidMember) -> RaidMember {
        value
    }

    open spec fn read(form: RaidMember) -> Option<RaidMember> {
        Some(form)
    }

    open spec fn faithful(value: RaidMember) -> bool {
        true
    }

    fn to_form(&self) -> (form: RaidMember) {
        *self
    }

    fn from_form(form: &RaidMember) -> (r: Option<Self>) {
        Some(*form)
    }

    proof fn lemma_read_written(value: RaidMember) {
    }
}

/// A copy of `attacks`.
fn copy_attacks(attacks: &Vec<WarAttack>) -> (copy: Vec<WarAttack>)
    ensures
        copy@ == attacks@,
{
    let mut copy: Vec<WarAttack> = Vec::new();
    let mut i: usize = 0;
    while i < attacks.len()
        invariant
            i <= attacks@.len(),
            copy@ == attacks@.subrange(0, i as int),
        decreases attacks@.len() - i,
    {
        copy.push(attacks[i]);
        assert(copy@ =~= attacks@.subrange(0, i + 1));
        i = i + 1;
    }
    assert(copy@ =~= attacks@);
    copy
}

impl Persist for MemberWarStats {
    type Form = Vec<WarAttack>;

    open spec fn written(value: Seq<WarAttack>) -> Seq<WarAttack> {
        value
    }

    open spec fn read(form: Seq<WarAttack>) -> Option<Seq<WarAttack>> {
        Some(form)
    }

    open spec fn faithful(value: Seq<WarAttack>) -> bool {
        true
    }

    fn to_form(&self) -> (form: Vec<WarAttack>) {
        let form = copy_attacks(&self.attacks);
        assert(form.deep_view() =~= self@);
        form
    }

    fn from_form(form: &Vec<WarAttack>) -> (r: Option<Self>) {
        let stats = MemberWarStats { attacks: copy_attacks(form) };
        assert(form.deep_view() =~= stats@);
        Some(stats)
    }

    proof fn lemma_read_written(value: Seq<WarAttack>) {
    }
}

/// The members of a war in the document: under the tag of each player, the
/// attacks of that player.
pub type MembersDocument = Vec<(String, Vec<WarAttack>)>;

impl Persist for CwlWarStats {
    type Form = MembersDocument;

    open spec fn written(value: Roster<Seq<WarAttack>>) -> Roster<Seq<WarAttack>> {
        written_entries::<PlayerTag, MemberWarStats>(value)
    }

    open spec fn read(form: Roster<Seq<WarAttack>>) -> Option<Roster<Seq<WarAttack>>> {
        read_entries::<PlayerTag, MemberWarStats>(form)
    }

    open spec fn faithful(value: Roster<Seq<WarAttack>>) -> bool {
        faithful_entries::<PlayerTag, MemberWarStats>(value)
    }

    fn to_form(&self) -> (form: MembersDocument) {
        self.members.to_form()
    }

    fn from_form(form: &MembersDocument) -> (r: Option<Self>) {
        match Table::from_form(form) {
            Some(members) => Some(CwlWarStats { members }),
            None => None,
        }
    }

    proof fn lemma_read_written(value: Roster<Seq<WarAttack>>) {
        lemma_read_written_entries::<PlayerTag, MemberWarStats>(value);
    }
}

/// What is written for `items`, one for one.
pub open spec fn written_each<T: Persist>(items: Seq<T::V>) -> Seq<<T::Form as DeepView>::V> {
    Seq::new(items.len(), |i: int| T::written(items[i]))
}

/// What is read from `forms`, one for one; nothing where one of them cannot
/// be read.
pub open spec fn read_each<T: Persist>(forms: Seq<<T::Form as DeepView>::V>) -> Option<Seq<T::V>>
    decreases forms.len(),
{
    if forms.len() == 0 {
        Some(Seq::empty())
    } else {
        match (read_each::<T>(forms.drop_last()), T::read(forms.last())) {
            (Some(before), Some(item)) => Some(before.push(item)),
            _ => None,
        }
    }
}

/// Each of `items` is faithful.
pub open spec fn faithful_each<T: Persist>(items: Seq<T::V>) -> bool {
    forall|i: int| 0 <= i < items.len() ==> T::faithful(#[trigger] items[i])
}

/// Faithful items are read back from what is written for them.
pub proof fn lemma_read_written_each<T: Persist>(items: Seq<T::V>)
    requires
        faithful_each::<T>(items),
    ensures
        read_each::<T>(written_each::<T>(items)) == Some(items),
    decreases items.len(),
{
    if items.len() > 0 {
        let front = items.drop_last();
        assert(faithful_each::<T>(front)) by {
            assert forall|i: int| 0 <= i < front.len() implies T::faithful(#[trigger] front[i]) by {
                assert(front[i] == items[i]);
            }
        }
        lemma_read_written_each::<T>(front);
        assert(written_each::<T>(items).drop_last() =~= written_each::<T>(front));
        assert(T::faithful(items[items.len() - 1]));
        T::lemma_read_written(items.last());
        assert(front.push(items.last()) =~= items);
    }
}

/// Where the first `k` forms cannot be read, the whole cannot.
pub proof fn lemma_read_each_fails_later<T: Persist>(forms: Seq<<T::Form as DeepView>::V>, k: int)
    requires
        0 <= k <= forms.len(),
        read_each::<T>(forms.subrange(0, k)) is None,
    ensures
        read_each::<T>(forms) is None,
    decreases forms.len() - k,
{
    if k == forms.len() {
        assert(forms.subrange(0, k) =~= forms);
    } else {
        assert(forms.subrange(0, k + 1).drop_last() =~= forms.subrange(0, k));
        lemma_read_each_fails_later::<T>(forms, k + 1);
    }
}

impl Persist for CwlStats {
    type Form = Vec<MembersDocument>;

    open spec fn written(value: Seq<Roster<Seq<WarAttack>>>) -> Seq<Roster<Seq<WarAttack>>> {
        written_each::<CwlWarStats>(value)
    }

    open spec fn read(form: Seq<Roster<Seq<WarAttack>>>) -> Option<Seq<Roster<Seq<WarAttack>>>> {
        read_each::<CwlWarStats>(form)
    }

    open spec fn faithful(value: Seq<Roster<Seq<WarAttack>>>) -> bool {
        faithful_each::<CwlWarStats>(value)
    }

    fn to_form(&self) -> (form: Vec<MembersDocument>) {
        let mut form: Vec<MembersDocument> = Vec::new();
        let mut i: usize = 0;
        while i < self.wars.len()
            invariant
                i <= self.wars@.len(),
                form@.len() == i,
                forall|j: int|
                    0 <= j < i ==> (#[trigger] form@[j]).deep_view() == CwlWarStats::written(
                        self.wars@[j]@,
                    ),
            decreases self.wars@.len() - i,
        {
            form.push(self.wars[i].to_form());
            i = i + 1;
        }
        assert(form.deep_view() =~= written_each::<CwlWarStats>(self@));
        form
    }

    fn from_form(form: &Vec<MembersDocument>) -> (r: Option<Self>) {
        let ghost whole = form.deep_view();
        let mut rounds = CwlStats { wars: Vec::new() };
        let mut i: usize = 0;
        assert(whole.subrange(0, 0) =~= Seq::empty());
        assert(rounds@ =~= Seq::empty());
        while i < form.len()
            invariant
                i <= form@.len(),
                whole == form.deep_view(),
                whole.len() == form@.len(),
                read_each::<CwlWarStats>(whole.subrange(0, i as int)) == Some(rounds@),
            decreases form@.len() - i,
        {
            proof {
                assert(whole.subrange(0, i + 1).drop_last() =~= whole.subrange(0, i as int));
                assert(whole.subrange(0, i + 1).last() == form@[i as int].deep_view());
            }
            let ghost before = rounds@;
            match CwlWarStats::from_form(&form[i]) {
                Some(round) => {
                    rounds.wars.push(round);
                    assert(rounds@ =~= before.push(round@));
                },
                None => {
                    proof {
                        lemma_read_each_fails_later::<CwlWarStats>(whole, i + 1);
                    }
                    return None;
                },
            }
            i = i + 1;
        }
        assert(whole.subrange(0, i as int) =~= whole);
        Some(rounds)
    }

    proof fn lemma_read_written(value: Seq<Roster<Seq<WarAttack>>>) {
        lemma_read_written_each::<CwlWarStats>(value);
    }
}

/// A regular war in the document.
#[derive(Debug, Clone, PartialEq)]
pub struct WarDocument {
    pub start_time: String,
    pub members: MembersDocument,
}

/// What a [`WarDocument`] holds.
pub struct WarDocumentView {
    pub start_time: Seq<char>,
    pub members: Roster<Seq<WarAttack>>,
}

impl DeepView for WarDocument {
    type V = WarDocumentView;

    open spec fn deep_view(&self) -> WarDocumentView {
        WarDocumentView {
            start_time: self.start_time.deep_view(),
            members: self.members.deep_view(),
        }
    }
}

impl Persist for WarStats {
    type Form = WarDocument;

    open spec fn written(value: WarStatsView) -> WarDocumentView {
        WarDocumentView {
            start_time: Time::written(value.start_time),
            members: written_entries::<PlayerTag, MemberWarStats>(value.members),
        }
    }

    open spec fn read(form: WarDocumentView) -> Option<WarStatsView> {
        match (Time::read(form.start_time), read_entries::<PlayerTag, MemberWarStats>(form.members)) {
            (Some(start_time), Some(members)) => Some(WarStatsView { start_time, members }),
            _ => None,
        }
    }

    open spec fn faithful(value: WarStatsView) -> bool {
        Time::faithful(value.start_time) && faithful_entries::<PlayerTag, MemberWarStats>(
            value.members,
        )
    }

    fn to_form(&self) -> (form: WarDocument) {
        WarDocument { start_time: self.start_time.to_form(), members: self.members.to_form() }
    }

    fn from_form(form: &WarDocument) -> (r: Option<Self>) {
        let start_time = match Time::from_form(&form.start_time) {
            Some(start_time) => start_time,
            None => {
                return None;
            },
        };
        let members = match Table::from_form(&form.members) {
            Some(members) => members,
            None => {
                return None;
            },
        };
        Some(WarStats { start_time, members })
    }

    proof fn lemma_read_written(value: WarStatsView) {
        Time::lemma_read_written(value.start_time);
        lemma_read_written_entries::<PlayerTag, MemberWarStats>(value.members);
    }
}

/// A raid weekend in the document.
#[derive(Debug, Clone, PartialEq)]
pub struct RaidWeekendDocument {
    pub start_time: String,
    pub members: Vec<(String, RaidMember)>,
}

/// What a [`RaidWeekendDocument`] holds.
pub struct RaidWeekendDocumentView {
    pub start_time: Seq<char>,
    pub members: Roster<RaidMember>,
}

impl DeepView for RaidWeekendDocument {
    type V = RaidWeekendDocumentView;

    open spec fn deep_view(&self) -> RaidWeekendDocumentView {
        RaidWeekendDocumentView {
            start_time: self.start_time.deep_view(),
            members: self.members.deep_view(),
        }
    }
}

impl Persist for RaidWeekendStats {
    type Form = RaidWeekendDocument;

    open spec fn written(value: RaidWeekendStatsView) -> RaidWeekendDocumentView {
        RaidWeekendDocumentView {
            start_time: Time::written(value.start_time),
            members: written_entries::<PlayerTag, RaidMember>(value.members),
        }
    }

    open spec fn read(form: RaidWeekendDocumentView) -> Option<RaidWeekendStatsView> {
        match (Time::read(form.start_time), read_entries::<PlayerTag, RaidMember>(form.members)) {
            (Some(start_time), Some(members)) => Some(RaidWeekendStatsView { start_time, members }),
            _ => None,
        }
    }

    open spec fn faithful(value: RaidWeekendStatsView) -> bool {
        Time::faithful(value.start_time) && faithful_entries::<PlayerTag, RaidMember>(value.members)
    }

    fn to_form(&self) -> (form: RaidWeekendDocument) {
        RaidWeekendDocument {
            start_time: self.start_time.to_form(),
            members: self.members.to_form(),
        }
    }

    fn from_form(form: &RaidWeekendDocument) -> (r: Option<Self>) {
        let start_time = match Time::from_form(&form.start_time) {
            Some(start_time) => start_time,
            None => {
                return None;
            },
        };
        let members = match Table::from_form(&form.members) {
            Some(members) => members,
            None => {
                return None;
            },
        };
        Some(RaidWeekendStats { start_time, members })
    }

    proof fn lemma_read_written(value: RaidWeekendStatsView) {
        Time::lemma_read_written(value.start_time);
        lemma_read_written_entries::<PlayerTag, RaidMember>(value.members);
    }
}

/// The bundle of one clan and season in the document.
#[derive(Debug, Clone, PartialEq)]
pub struct ClanDocument {
    pub cwl: Vec<MembersDocument>,
    pub wars: Vec<(String, WarDocument)>,
    pub games: Vec<(String, PlayerGamesStats)>,
    pub raid_weekend: Vec<(String, RaidWeekendDocument)>,
    pub player_names: Vec<(String, String)>,
}

/// What a [`ClanDocument`] holds.
pub struct ClanDocumentView {
    pub cwl: Seq<Roster<Seq<WarAttack>>>,
    pub wars: Seq<(Seq<char>, WarDocumentView)>,
    pub games: Roster<PlayerGamesStats>,
    pub raid_weekend: Seq<(Seq<char>, RaidWeekendDocumentView)>,
    pub player_names: Roster<Seq<char>>,
}

impl DeepView for ClanDocument {
    type V = ClanDocumentView;

    open spec fn deep_view(&self) -> ClanDocumentView {
        ClanDocumentView {
            cwl: self.cwl.deep_view(),
            wars: self.wars.deep_view(),
            games: self.games.deep_view(),
            raid_weekend: self.raid_weekend.deep_view(),
            player_names: self.player_names.deep_view(),
        }
    }
}

impl Persist for ClanStorage {
    type Form = ClanDocument;

    open spec fn written(value: ClanStorageView) -> ClanDocumentView {
        ClanDocumentView {
            cwl: written_each::<CwlWarStats>(value.cwl),
            wars: written_entries::<Time, WarStats>(value.wars),
            games: written_entries::<PlayerTag, PlayerGamesStats>(value.games),
            raid_weekend: written_entries::<Time, RaidWeekendStats>(value.raid_weekend),
            player_names: written_entries::<PlayerTag, String>(value.player_names),
        }
    }

    open spec fn read(form: ClanDocumentView) -> Option<ClanStorageView> {
        match (
            read_each::<CwlWarStats>(form.cwl),
            read_entries::<Time, WarStats>(form.wars),
            read_entries::<PlayerTag, PlayerGamesStats>(form.games),
            read_entries::<Time, RaidWeekendStats>(form.raid_weekend),
            read_entries::<PlayerTag, String>(form.player_names),
        ) {
            (Some(cwl), Some(wars), Some(games), Some(raid_weekend), Some(player_names)) => Some(
                ClanStorageView { cwl, wars, games, raid_weekend, player_names },
            ),
            _ => None,
        }
    }

    open spec fn faithful(value: ClanStorageView) -> bool {
        &&& faithful_each::<CwlWarStats>(value.cwl)
        &&& faithful_entries::<Time, WarStats>(value.wars)
        &&& faithful_entries::<PlayerTag, PlayerGamesStats>(value.games)
        &&& faithful_entries::<Time, RaidWeekendStats>(value.raid_weekend)
        &&& faithful_entries::<PlayerTag, String>(value.player_names)
    }

    fn to_form(&self) -> (form: ClanDocument) {
        ClanDocument {
            cwl: self.cwl.to_form(),
            wars: self.wars.to_form(),
            games: self.games.to_form(),
            raid_weekend: self.raid_weekend.to_form(),
            player_names: self.player_names.to_form(),
        }
    }

    fn from_form(form: &ClanDocument) -> (r: Option<Self>) {
        let cwl = match CwlStats::from_form(&form.cwl) {
            Some(cwl) => cwl,
            None => {
                return None;
            },
        };
        let wars = match Table::from_form(&form.wars) {
            Some(wars) => wars,
            None => {
                return None;
            },
        };
        let games = match Table::from_form(&form.games) {
            Some(games) => games,
            None => {
                return None;
            },
        };
        let raid_weekend = match Table::from_form(&form.raid_weekend) {
            Some(raid_weekend) => raid_weekend,
            None => {
                return None;
            },
        };
        let player_names = match Table::from_form(&form.player_names) {
            Some(player_names) => player_names,
            None => {
                return None;
            },
        };
        Some(ClanStorage { cwl, wars, games, raid_weekend, player_names })
    }

    proof fn lemma_read_written(value: ClanStorageView) {
        lemma_read_written_each::<CwlWarStats>(value.cwl);
        lemma_read_written_entries::<Time, WarStats>(value.wars);
        lemma_read_written_entries::<PlayerTag, PlayerGamesStats>(value.games);
        lemma_read_written_entries::<Time, RaidWeekendStats>(value.raid_weekend);
        lemma_read_written_entries::<PlayerTag, String>(value.player_names);
    }
}

/// The whole store in the document: under the tag of each clan, under each
/// season as `YYYY-MM`, the bundle.
pub type StorageDocument = Vec<(String, Vec<(String, ClanDocument)>)>;

/// What a [`StorageDocument`] holds.
pub type StorageDocumentView = Seq<(Seq<char>, Seq<(Seq<char>, ClanDocumentView)>)>;

/// The document that is written for `store`.
pub open spec fn written_store(store: StorageView) -> StorageDocumentView {
    written_entries::<ClanTag, Table<Season, ClanStorage>>(store)
}

/// The store that is read from `document`, where every key and every value
/// of it can be read.
pub open spec fn read_store(document: StorageDocumentView) -> Option<StorageView> {
    read_entries::<ClanTag, Table<Season, ClanStorage>>(document)
}

/// `store` is read back from its document: in each of its tables no key
/// occurs twice, each tag begins with `#`, and each day has a year of at
/// most four digits and a month and a day of at most two.
pub open spec fn storable(store: StorageView) -> bool {
    faithful_entries::<ClanTag, Table<Season, ClanStorage>>(store)
}

/// A store that is written to a document and read from it again is the
/// same store.
pub proof fn lemma_store_round_trip(store: StorageView)
    requires
        storable(store),
    ensures
        read_store(written_store(store)) == Some(store),
{
    lemma_read_written_entries::<ClanTag, Table<Season, ClanStorage>>(store);
}

} // verus!
