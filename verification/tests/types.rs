//! Tests of the tile types: the matching rule, the pool multiset, and the
//! counting helpers.

use mahjong::tile_type::{count_occurrences, counts_agree, get_tile_types, IterableEnum};
use mahjong::TileType;

#[test]
fn ranked_types_match_only_themselves() {
    assert!(TileType::BallOne.matches(&TileType::BallOne));
    assert!(!TileType::BallOne.matches(&TileType::BallTwo));
    assert!(!TileType::BallOne.matches(&TileType::BambooOne));
    assert!(!TileType::WindNorth.matches(&TileType::WindEast));
    assert!(TileType::DragonRed.matches(&TileType::DragonRed));
    assert!(!TileType::DragonRed.matches(&TileType::FlowerPlum));
}

#[test]
fn flowers_and_seasons_match_within_their_family() {
    assert!(TileType::FlowerPlum.matches(&TileType::FlowerOrchid));
    assert!(TileType::FlowerBamboo.matches(&TileType::FlowerBamboo));
    assert!(TileType::SeasonSpring.matches(&TileType::SeasonWinter));
    assert!(!TileType::FlowerPlum.matches(&TileType::SeasonSpring));
    assert!(!TileType::SeasonAutumn.matches(&TileType::FlowerBamboo));
}

#[test]
fn max_allowed_is_four_for_ranked_and_one_for_wildcards() {
    assert_eq!(TileType::BallFive.max_allowed(), 4);
    assert_eq!(TileType::CharacterNine.max_allowed(), 4);
    assert_eq!(TileType::WindWest.max_allowed(), 4);
    assert_eq!(TileType::DragonWhite.max_allowed(), 4);
    assert_eq!(TileType::FlowerPlum.max_allowed(), 1);
    assert_eq!(TileType::SeasonWinter.max_allowed(), 1);
}

#[test]
fn variant_list_has_forty_two_faces() {
    let all = TileType::iter();
    assert_eq!(all.len(), 42);
    assert_eq!(all[0], TileType::BallOne);
    assert_eq!(all[41], TileType::SeasonWinter);
}

#[test]
fn pool_holds_one_hundred_forty_four_tiles_in_matching_pairs() {
    let pool = get_tile_types();
    assert_eq!(pool.len(), 144);
    for pair in pool.chunks(2) {
        assert!(pair[0].matches(&pair[1]));
    }
    for t in TileType::iter() {
        assert_eq!(count_occurrences(&pool, t), t.max_allowed() as usize);
    }
}

#[test]
fn counts_agree_detects_multiset_differences() {
    let pool = get_tile_types();
    let mut other = pool.clone();
    assert!(counts_agree(&pool, &other));
    other[0] = TileType::BallTwo;
    assert!(!counts_agree(&pool, &other));
    other.swap(0, 143);
    // A permutation is not a difference.
    let mut shuffled = pool.clone();
    shuffled.reverse();
    assert!(counts_agree(&pool, &shuffled));
}

#[test]
fn to_str_gives_two_character_codes() {
    assert_eq!(TileType::BallOne.to_str(), "o1");
    assert_eq!(TileType::BambooNine.to_str(), "b9");
    assert_eq!(TileType::CharacterFive.to_str(), "c5");
    assert_eq!(TileType::WindNorth.to_str(), "wN");
    assert_eq!(TileType::DragonGreen.to_str(), "dG");
    assert_eq!(TileType::FlowerPlum.to_str(), "fP");
    assert_eq!(TileType::SeasonSpring.to_str(), "sL");
}
