//! Plain data-model behaviour: status constructors, sort preference
//! parsing, rarity tiers, and fetch error messages.

use sam_core::models::{
    AppConfig, FetchError, RarityTier, SortColumn, SortOrder, Status, StatusLevel, rarity_tier,
};

#[test]
fn status_constructors_set_level_and_message() {
    let s = Status::new(String::from("hello"), StatusLevel::Info);
    assert_eq!(s.message, "hello");
    assert!(matches!(s.level, StatusLevel::Info));
    assert!(matches!(Status::error(String::from("e")).level, StatusLevel::Error));
    assert!(matches!(Status::success(String::from("s")).level, StatusLevel::Success));
    assert!(matches!(Status::info(String::from("i")).level, StatusLevel::Info));
}

#[test]
fn sort_column_parses_name_and_falls_back_to_percentage() {
    assert_eq!(SortColumn::from_string("Name"), SortColumn::Name);
    assert_eq!(SortColumn::from_string("Percentage"), SortColumn::Percentage);
    assert_eq!(SortColumn::from_string("anything else"), SortColumn::Percentage);
    assert_eq!(SortColumn::from_string(""), SortColumn::Percentage);
}

#[test]
fn sort_order_parses_ascending_and_falls_back_to_descending() {
    assert_eq!(SortOrder::from_string("Ascending"), SortOrder::Ascending);
    assert_eq!(SortOrder::from_string("Descending"), SortOrder::Descending);
    assert_eq!(SortOrder::from_string("sideways"), SortOrder::Descending);
}

#[test]
fn sort_order_flips_both_ways() {
    assert_eq!(SortOrder::Ascending.flipped(), SortOrder::Descending);
    assert_eq!(SortOrder::Descending.flipped(), SortOrder::Ascending);
}

#[test]
fn default_config_is_percentage_descending() {
    let c = AppConfig::default();
    assert_eq!(c.sort_column, SortColumn::Percentage);
    assert_eq!(c.sort_order, SortOrder::Descending);
}

#[test]
fn rarity_tiers_follow_the_display_thresholds() {
    assert_eq!(rarity_tier(0), RarityTier::Legendary);
    assert_eq!(rarity_tier(100), RarityTier::Legendary);
    assert_eq!(rarity_tier(101), RarityTier::Epic);
    assert_eq!(rarity_tier(1000), RarityTier::Epic);
    assert_eq!(rarity_tier(1001), RarityTier::Rare);
    assert_eq!(rarity_tier(2500), RarityTier::Rare);
    assert_eq!(rarity_tier(2501), RarityTier::Uncommon);
    assert_eq!(rarity_tier(5000), RarityTier::Uncommon);
    assert_eq!(rarity_tier(5001), RarityTier::Common);
    assert_eq!(rarity_tier(10000), RarityTier::Common);
}

#[test]
fn fetch_errors_carry_their_messages() {
    assert_eq!(FetchError::NotOwned.message(), "App not in your library");
    assert_eq!(FetchError::NoAchievements.message(), "No achievements were found");
    assert_eq!(FetchError::NameFetchFailed.message(), "Failed to get achievement names");
}
