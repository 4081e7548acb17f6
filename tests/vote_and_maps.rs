use scrimbot::maps::{MapPool, MapPoolError, MAX_MAPS};
use scrimbot::vote::{
    ballot_for, choose_winner, resolve_vote, tally, top_maps_of, MapCount, Reaction,
};

fn counts(entries: &[(&str, u64)]) -> Vec<MapCount> {
    entries
        .iter()
        .map(|(m, c)| MapCount { map: m.to_string(), count: *c })
        .collect()
}

#[test]
fn tie_between_two_maps_never_picks_the_third() {
    let c = counts(&[("A", 3), ("B", 5), ("C", 5)]);
    assert_eq!(top_maps_of(&c), vec!["B".to_string(), "C".to_string()]);
    assert_eq!(choose_winner(&c, 0), Some("B".to_string()));
    assert_eq!(choose_winner(&c, 1), Some("C".to_string()));
    assert_eq!(choose_winner(&c, 2), Some("B".to_string()));
    for _ in 0..20 {
        let o = resolve_vote(&c).unwrap();
        assert!(o.map == "B" || o.map == "C");
        assert!(o.tied);
    }
}

#[test]
fn tie_break_draws_each_tied_map() {
    let c = counts(&[("A", 3), ("B", 5), ("C", 5)]);
    let mut seen_b = false;
    let mut seen_c = false;
    for _ in 0..64 {
        let o = resolve_vote(&c).unwrap();
        seen_b |= o.map == "B";
        seen_c |= o.map == "C";
    }
    assert!(seen_b && seen_c);
}

#[test]
fn single_map_always_wins() {
    let c = counts(&[("A", 7)]);
    for choice in 0..5 {
        assert_eq!(choose_winner(&c, choice), Some("A".to_string()));
    }
    let o = resolve_vote(&c).unwrap();
    assert_eq!(o.map, "A");
    assert!(!o.tied);
}

#[test]
fn unique_maximum_wins() {
    let c = counts(&[("de_nuke", 2), ("de_mirage", 4), ("de_train", 1)]);
    let o = resolve_vote(&c).unwrap();
    assert_eq!(o.map, "de_mirage");
    assert!(!o.tied);
}

#[test]
fn no_reactions_no_winner() {
    assert_eq!(choose_winner(&Vec::new(), 0), None);
    assert!(resolve_vote(&Vec::new()).is_none());
}

#[test]
fn tally_reads_symbols_back_as_maps() {
    let pool = MapPool::from_names(vec![
        "de_dust2".to_string(),
        "de_inferno".to_string(),
        "de_nuke".to_string(),
    ])
    .unwrap();
    let ballot = ballot_for(&pool);
    assert_eq!(ballot[2].symbol, '\u{1F1E8}');
    let reactions = vec![
        Reaction { emoji: "\u{1F1E8}".to_string(), count: 4 },
        Reaction { emoji: "\u{1F44D}".to_string(), count: 9 },
        Reaction { emoji: "\u{1F1E6}".to_string(), count: 2 },
        Reaction { emoji: "\u{1F1E6}\u{1F1E6}".to_string(), count: 3 },
    ];
    let t = tally(&ballot, &reactions);
    assert_eq!(t.len(), 2);
    assert_eq!(t[0].map, "de_nuke");
    assert_eq!(t[0].count, 4);
    assert_eq!(t[1].map, "de_dust2");
    assert_eq!(t[1].count, 2);
}

#[test]
fn ballot_covers_a_full_pool() {
    let names: Vec<String> = (0..MAX_MAPS).map(|i| format!("map{}", i)).collect();
    let pool = MapPool::from_names(names).unwrap();
    let ballot = ballot_for(&pool);
    assert_eq!(ballot.len(), 26);
    assert_eq!(ballot[25].symbol, '\u{1F1FF}');
    assert_eq!(ballot[25].map, "map25");
}

#[test]
fn map_pool_add_and_remove() {
    let mut pool = MapPool::new();
    assert_eq!(pool.add_map(false, "de_dust2".to_string()), Err(MapPoolError::NotAdmin));
    assert_eq!(pool.add_map(true, "de_dust2".to_string()), Ok(()));
    assert_eq!(pool.add_map(true, "de_nuke".to_string()), Ok(()));
    assert_eq!(pool.add_map(true, "de_dust2".to_string()), Err(MapPoolError::AlreadyPresent));
    assert_eq!(pool.maps(), &vec!["de_dust2".to_string(), "de_nuke".to_string()]);
    assert_eq!(pool.remove_map(true, &"de_train".to_string()), Err(MapPoolError::NotPresent));
    assert_eq!(pool.remove_map(true, &"de_dust2".to_string()), Ok(()));
    assert_eq!(pool.maps(), &vec!["de_nuke".to_string()]);
    assert_eq!(pool.len(), 1);
}

#[test]
fn map_pool_is_capped() {
    let mut pool = MapPool::new();
    for i in 0..MAX_MAPS {
        assert_eq!(pool.add_map(true, format!("m{}", i)), Ok(()));
    }
    assert_eq!(pool.add_map(true, "extra".to_string()), Err(MapPoolError::PoolFull));
    assert_eq!(pool.len(), 26);
}

#[test]
fn map_pool_from_names_rejects_duplicates_and_overflow() {
    assert!(MapPool::from_names(vec!["a".to_string(), "a".to_string()]).is_none());
    let many: Vec<String> = (0..27).map(|i| format!("m{}", i)).collect();
    assert!(MapPool::from_names(many).is_none());
    assert!(MapPool::from_names(Vec::new()).is_some());
}
