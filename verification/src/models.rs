//! The data model: achievement rows, sort preferences, status messages, and
//! the error and result shapes exchanged with the backend collaborator.

use vstd::prelude::*;

verus! {

use vstd::string::StringExecFns;
use crate::text::str_eq;

/// Outcome recorded on an item by the most recent commit that touched it.
/// It never drives behaviour, only display.
#[derive(Clone, Copy, Debug, PartialEq, Eq, Structural)]
pub enum AchievementStatus {
    Unchanged,
    Success,
    Failed,
}

/// Severity of a transient status message.
#[derive(Clone, Copy, Debug, PartialEq, Eq, Structural)]
pub enum StatusLevel {
    Info,
    Success,
    Error,
}

/// A transient message shown to the user, with a severity level.
#[derive(Clone, Debug)]
pub struct Status {
    pub message: String,
    pub level: StatusLevel,
}

impl Status {
    pub fn new(message: String, level: StatusLevel) -> (s: Status)
        ensures
            s.message == message,
            s.level == level,
    {
        Status { message, level }
    }

    pub fn error(message: String) -> (s: Status)
        ensures
            s.message == message,
            s.level == StatusLevel::Error,
    {
        Status::new(message, StatusLevel::Error)
    }

    pub fn success(message: String) -> (s: Status)
        ensures
            s.message == message,
            s.level == StatusLevel::Success,
    {
        Status::new(message, StatusLevel::Success)
    }

    pub fn info(message: String) -> (s: Status)
        ensures
            s.message == message,
            s.level == StatusLevel::Info,
    {
        Status::new(message, StatusLevel::Info)
    }
}

/// The column the list is ordered by.
#[derive(Clone, Copy, Debug, PartialEq, Eq, Structural)]
pub enum SortColumn {
    Percentage,
    Name,
}

impl SortColumn {
    /// `"Name"` selects the name column; anything else falls back to
    /// percentage, the default.
    pub fn from_string(s: &str) -> (c: SortColumn)
        ensures
            c == (if s@ == "Name"@ {
                SortColumn::Name
            } else {
                SortColumn::Percentage
            }),
    {
        if str_eq(s, "Name") {
            SortColumn::Name
        } else {
            SortColumn::Percentage
        }
    }
}

/// The direction the list is ordered in.
#[derive(Clone, Copy, Debug, PartialEq, Eq, Structural)]
pub enum SortOrder {
    Ascending,
    Descending,
}

impl SortOrder {
    /// `"Ascending"` selects ascending; anything else falls back to
    /// descending, the default.
    pub fn from_string(s: &str) -> (o: SortOrder)
        ensures
            o == (if s@ == "Ascending"@ {
                SortOrder::Ascending
            } else {
                SortOrder::Descending
            }),
    {
        if str_eq(s, "Ascending") {
            SortOrder::Ascending
        } else {
            SortOrder::Descending
        }
    }

    /// The opposite direction.
    pub open spec fn flip(self) -> SortOrder {
        match self {
            SortOrder::Ascending => SortOrder::Descending,
            SortOrder::Descending => SortOrder::Ascending,
        }
    }

    pub fn flipped(self) -> (o: SortOrder)
        ensures
            o == self.flip(),
    {
        match self {
            SortOrder::Ascending => SortOrder::Descending,
            SortOrder::Descending => SortOrder::Ascending,
        }
    }
}

/// The persisted sort preference.
#[derive(Clone, Copy, Debug, PartialEq, Eq, Structural)]
pub struct AppConfig {
    pub sort_column: SortColumn,
    pub sort_order: SortOrder,
}

impl Default for AppConfig {
    fn default() -> (c: AppConfig)
        ensures
            c.sort_column == SortColumn::Percentage,
            c.sort_order == SortOrder::Descending,
    {
        AppConfig { sort_column: SortColumn::Percentage, sort_order: SortOrder::Descending }
    }
}

/// One achievement row.
///
/// `selected` is the desired end-state, `unlocked` the last confirmed
/// committed state; the authoritative delta for the row is
/// `selected != unlocked`. `percentage` is the global unlock rarity in
/// hundredths of a percent, so `0 ..= 10_000` spans `0% ..= 100%`.
#[derive(Clone, Debug, PartialEq, Eq)]
pub struct AchievementItem {
    pub name: String,
    pub selected: bool,
    pub unlocked: bool,
    pub percentage: u32,
    pub status: AchievementStatus,
}

/// One achievement as fetched from the backend, before it becomes a row.
#[derive(Clone, Debug, PartialEq, Eq)]
pub struct AchievementInfo {
    pub name: String,
    pub unlocked: bool,
    pub percentage: u32,
}

/// Why loading an application's achievement list failed. All are fatal to
/// loading that application; no partial list is constructed.
#[derive(Clone, Copy, Debug, PartialEq, Eq, Structural)]
pub enum FetchError {
    NotOwned,
    NoAchievements,
    NameFetchFailed,
}

impl FetchError {
    pub open spec fn spec_message(self) -> Seq<char> {
        match self {
            FetchError::NotOwned => "App not in your library"@,
            FetchError::NoAchievements => "No achievements were found"@,
            FetchError::NameFetchFailed => "Failed to get achievement names"@,
        }
    }

    pub fn message(&self) -> (m: String)
        ensures
            m@ == self.spec_message(),
    {
        match self {
            FetchError::NotOwned => String::from_str("App not in your library"),
            FetchError::NoAchievements => String::from_str("No achievements were found"),
            FetchError::NameFetchFailed => String::from_str("Failed to get achievement names"),
        }
    }
}

/// The backend's verdict on one committed name.
#[derive(Clone, Debug, PartialEq, Eq)]
pub struct CommitResult {
    pub name: String,
    pub success: bool,
}

/// What one backend commit call came back with: either a per-name verdict
/// list, or a whole-call failure with its message.
#[derive(Clone, Debug, PartialEq, Eq)]
pub enum CommitOutcome {
    Completed(Vec<CommitResult>),
    Failed(String),
}

/// Display tier for a rarity percentage (in hundredths of a percent).
#[derive(Clone, Copy, Debug, PartialEq, Eq, Structural)]
pub enum RarityTier {
    Legendary,
    Epic,
    Rare,
    Uncommon,
    Common,
}

/// Classifies a global unlock rarity for display: at most 1% is legendary,
/// then 10%, 25% and 50% bound the next tiers.
pub fn rarity_tier(percentage: u32) -> (t: RarityTier)
    ensures
        t == (if percentage <= 100 {
            RarityTier::Legendary
        } else if percentage <= 1000 {
            RarityTier::Epic
        } else if percentage <= 2500 {
            RarityTier::Rare
        } else if percentage <= 5000 {
            RarityTier::Uncommon
        } else {
            RarityTier::Common
        }),
{
    if percentage <= 100 {
        RarityTier::Legendary
    } else if percentage <= 1000 {
        RarityTier::Epic
    } else if percentage <= 2500 {
        RarityTier::Rare
    } else if percentage <= 5000 {
        RarityTier::Uncommon
    } else {
        RarityTier::Common
    }
}

} // verus!
