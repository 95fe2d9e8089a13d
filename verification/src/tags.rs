//! Clan, war and player tags: identifiers that begin with `#`.

use crate::error::StoreError;
use crate::table::Key;
use vstd::prelude::*;
use vstd::string::*;

verus! {

/// `text` is a tag: it begins with `#`.
pub open spec fn is_tag(text: Seq<char>) -> bool {
    text.len() > 0 && text[0] == '#'
}

/// Accepts the texts that are tags and refuses every other.
pub struct TagVisitor;

impl TagVisitor {
    /// `v` as an owned tag text, where it begins with `#`.
    pub fn visit_str(&self, v: &str) -> (r: Result<String, StoreError>)
        ensures
            match r {
                Ok(text) => is_tag(v@) && text@ == v@,
                Err(e) => !is_tag(v@) && e == StoreError::DeserializeError,
            },
    {
        if v.is_empty() || v.get_char(0) != '#' {
            return Err(StoreError::DeserializeError);
        }
        Ok(v.to_owned())
    }

    /// `v` itself, where it begins with `#`.
    pub fn visit_string(&self, v: String) -> (r: Result<String, StoreError>)
        ensures
            match r {
                Ok(text) => is_tag(v@) && text@ == v@,
                Err(e) => !is_tag(v@) && e == StoreError::DeserializeError,
            },
    {
        if v.as_str().is_empty() || v.as_str().get_char(0) != '#' {
            return Err(StoreError::DeserializeError);
        }
        Ok(v)
    }
}

/// The tag of a clan.
#[derive(Debug)]
pub struct ClanTag(pub String);

impl View for ClanTag {
    type V = Seq<char>;

    open spec fn view(&self) -> Seq<char> {
        self.0@
    }
}

impl Clone for ClanTag {
    fn clone(&self) -> (r: Self)
        ensures
            r@ == self@,
    {
        ClanTag(self.0.clone())
    }
}

impl PartialEq for ClanTag {
    fn eq(&self, other: &Self) -> (b: bool) {
        self.0 == other.0
    }
}

impl vstd::std_specs::cmp::PartialEqSpecImpl for ClanTag {
    open spec fn obeys_eq_spec() -> bool {
        true
    }

    open spec fn eq_spec(&self, other: &Self) -> bool {
        self.0@ == other.0@
    }
}

impl Key for ClanTag {
    fn same(&self, other: &Self) -> (b: bool) {
        self.0 == other.0
    }
}

impl ClanTag {
    /// The clan tag that `raw` spells.
    pub fn parse(raw: &str) -> (r: Result<ClanTag, StoreError>)
        ensures
            match r {
                Ok(tag) => is_tag(raw@) && tag@ == raw@,
                Err(e) => !is_tag(raw@) && e == StoreError::DeserializeError,
            },
    {
        match (TagVisitor {}).visit_str(raw) {
            Ok(text) => Ok(ClanTag(text)),
            Err(e) => Err(e),
        }
    }
}

/// The tag of a war.
#[derive(Debug)]
pub struct WarTag(pub String);

impl View for WarTag {
    type V = Seq<char>;

    open spec fn view(&self) -> Seq<char> {
        self.0@
    }
}

impl Clone for WarTag {
    fn clone(&self) -> (r: Self)
        ensures
            r@ == self@,
    {
        WarTag(self.0.clone())
    }
}

impl PartialEq for WarTag {
    fn eq(&self, other: &Self) -> (b: bool) {
        self.0 == other.0
    }
}

impl vstd::std_specs::cmp::PartialEqSpecImpl for WarTag {
    open spec fn obeys_eq_spec() -> bool {
        true
    }

    open spec fn eq_spec(&self, other: &Self) -> bool {
        self.0@ == other.0@
    }
}

impl WarTag {
    /// The war tag that `raw` spells.
    pub fn parse(raw: &str) -> (r: Result<WarTag, StoreError>)
        ensures
            match r {
                Ok(tag) => is_tag(raw@) && tag@ == raw@,
                Err(e) => !is_tag(raw@) && e == StoreError::DeserializeError,
            },
    {
        match (TagVisitor {}).visit_str(raw) {
            Ok(text) => Ok(WarTag(text)),
            Err(e) => Err(e),
        }
    }

    /// Whether this is `#0`, which stands where a round has no war yet.
    pub fn is_unassigned(&self) -> (b: bool)
        ensures
            b == (self@ == seq!['#', '0']),
    {
        let text = self.0.as_str();
        let b = text.unicode_len() == 2 && text.get_char(0) == '#' && text.get_char(1) == '0';
        assert(b == (self@ =~= seq!['#', '0']));
        b
    }
}

/// The tag of a player.
#[derive(Debug)]
pub struct PlayerTag(pub String);

impl View for PlayerTag {
    type V = Seq<char>;

    open spec fn view(&self) -> Seq<char> {
        self.0@
    }
}

impl Clone for PlayerTag {
    fn clone(&self) -> (r: Self)
        ensures
            r@ == self@,
    {
        PlayerTag(self.0.clone())
    }
}

impl PartialEq for PlayerTag {
    fn eq(&self, other: &Self) -> (b: bool) {
        self.0 == other.0
    }
}

impl vstd::std_specs::cmp::PartialEqSpecImpl for PlayerTag {
    open spec fn obeys_eq_spec() -> bool {
        true
    }

    open spec fn eq_spec(&self, other: &Self) -> bool {
        self.0@ == other.0@
    }
}

impl Key for PlayerTag {
    fn same(&self, other: &Self) -> (b: bool) {
        self.0 == other.0
    }
}

impl PlayerTag {
    /// The player tag that `raw` spells.
    pub fn parse(raw: &str) -> (r: Result<PlayerTag, StoreError>)
        ensures
            match r {
                Ok(tag) => is_tag(raw@) && tag@ == raw@,
                Err(e) => !is_tag(raw@) && e == StoreError::DeserializeError,
            },
    {
        match (TagVisitor {}).visit_str(raw) {
            Ok(text) => Ok(PlayerTag(text)),
            Err(e) => Err(e),
        }
    }
}

} // verus!
