use std::collections::HashMap;

use scrimbot::maps::MapPool;
use scrimbot::session::{
    CaptainOutcome, Phase, PickOutcome, ReadyOutcome, Session, SessionError, Side, Team,
};

fn identities(players: &[u64]) -> HashMap<u64, String> {
    let mut ids = HashMap::new();
    for p in players {
        ids.insert(*p, format!("STEAM_0:1:{}", p));
    }
    ids
}

fn full_queue() -> (Session, HashMap<u64, String>) {
    let players: Vec<u64> = (1..=10).collect();
    let ids = identities(&players);
    let mut s = Session::new();
    for p in &players {
        s.join(*p, None, &ids).unwrap();
    }
    (s, ids)
}

fn pool() -> MapPool {
    MapPool::from_names(vec!["de_dust2".to_string(), "de_inferno".to_string()]).unwrap()
}

/// Session in the draft phase with captains 1 (A) and 2 (B).
fn drafting() -> Session {
    let (mut s, _) = full_queue();
    s.start(true, &pool()).unwrap();
    assert_eq!(s.finish_map_vote(true), Ok(Phase::CaptainPick));
    assert_eq!(s.register_captain(1, false), Ok(CaptainOutcome::Registered));
    assert_eq!(s.register_captain(2, false), Ok(CaptainOutcome::DraftStarted));
    s
}

fn drafted() -> Session {
    let mut s = drafting();
    let order = [(1, 3), (2, 4), (1, 5), (2, 6), (1, 7), (2, 8), (1, 9), (2, 10)];
    for (actor, target) in order {
        s.pick(actor, target).unwrap();
    }
    s
}

#[test]
fn join_appends_in_order_with_note() {
    let ids = identities(&[7, 8]);
    let mut s = Session::new();
    assert_eq!(s.join(7, Some("\"after 9pm\"".to_string()), &ids), Ok(1));
    assert_eq!(s.join(8, None, &ids), Ok(2));
    assert_eq!(s.queue(), &vec![7, 8]);
    assert_eq!(s.notes(), &vec![Some("\"after 9pm\"".to_string()), None]);
}

#[test]
fn join_without_identity_is_refused() {
    let ids = identities(&[1]);
    let mut s = Session::new();
    assert_eq!(s.join(2, None, &ids), Err(SessionError::NoIdentity));
    assert!(s.queue().is_empty());
}

#[test]
fn join_twice_is_refused() {
    let ids = identities(&[1]);
    let mut s = Session::new();
    s.join(1, None, &ids).unwrap();
    assert_eq!(s.join(1, None, &ids), Err(SessionError::AlreadyQueued));
    assert_eq!(s.queue(), &vec![1]);
}

#[test]
fn join_on_full_queue_fails_and_changes_nothing() {
    let (mut s, mut ids) = full_queue();
    ids.insert(11, "STEAM_0:0:11".to_string());
    let before = s.queue().clone();
    assert_eq!(s.join(11, None, &ids), Err(SessionError::QueueFull));
    assert_eq!(s.queue(), &before);
    assert_eq!(s.queue().len(), 10);
}

#[test]
fn queue_stays_bounded_and_distinct_over_joins_and_leaves() {
    let players: Vec<u64> = (1..=12).collect();
    let ids = identities(&players);
    let mut s = Session::new();
    for round in 0..3u64 {
        for p in &players {
            let _ = s.join(*p, None, &ids);
            let _ = s.join(*p, None, &ids);
            assert!(s.queue().len() <= 10);
        }
        let _ = s.leave(round + 1);
        let _ = s.leave(round + 5);
        let mut seen = s.queue().clone();
        seen.sort();
        seen.dedup();
        assert_eq!(seen.len(), s.queue().len());
        assert_eq!(s.notes().len(), s.queue().len());
    }
}

#[test]
fn leave_removes_player_and_note() {
    let ids = identities(&[1, 2, 3]);
    let mut s = Session::new();
    s.join(1, None, &ids).unwrap();
    s.join(2, Some("\"x\"".to_string()), &ids).unwrap();
    s.join(3, None, &ids).unwrap();
    assert_eq!(s.leave(2), Ok(2));
    assert_eq!(s.queue(), &vec![1, 3]);
    assert_eq!(s.notes(), &vec![None, None]);
    assert_eq!(s.leave(2), Err(SessionError::NotQueued));
}

#[test]
fn leave_after_start_is_refused() {
    let (mut s, _) = full_queue();
    s.start(true, &pool()).unwrap();
    assert_eq!(s.leave(1), Err(SessionError::WrongPhase));
    assert_eq!(s.queue().len(), 10);
}

#[test]
fn kick_needs_admin() {
    let ids = identities(&[1]);
    let mut s = Session::new();
    s.join(1, None, &ids).unwrap();
    assert_eq!(s.kick(false, 1), Err(SessionError::NotAdmin));
    assert_eq!(s.kick(true, 1), Ok(0));
    assert_eq!(s.kick(true, 1), Err(SessionError::NotQueued));
}

#[test]
fn clear_wipes_everything() {
    let mut s = drafting();
    assert_eq!(s.clear(false), Err(SessionError::NotAdmin));
    assert_eq!(s.clear(true), Ok(()));
    assert_eq!(s.phase(), Phase::Queue);
    assert!(s.queue().is_empty());
    assert_eq!(s.captain_a(), None);
    assert!(s.team_a().is_empty());
}

#[test]
fn recover_rejoins_each_player() {
    let ids = identities(&[1, 2, 3]);
    let mut s = Session::new();
    s.join(3, None, &ids).unwrap();
    let answers = s.recover(true, &vec![1, 4, 2, 1], &ids).unwrap();
    assert_eq!(
        answers,
        vec![
            Ok(1),
            Err(SessionError::NoIdentity),
            Ok(2),
            Err(SessionError::AlreadyQueued)
        ]
    );
    assert_eq!(s.queue(), &vec![1, 2]);
    assert_eq!(s.recover(false, &vec![3], &ids), Err(SessionError::NotAdmin));
}

#[test]
fn start_requires_exactly_ten() {
    let players: Vec<u64> = (1..=9).collect();
    let ids = identities(&players);
    let mut s = Session::new();
    assert_eq!(s.start(true, &pool()).err(), Some(SessionError::QueueNotFull));
    for p in &players {
        s.join(*p, None, &ids).unwrap();
    }
    assert_eq!(s.start(true, &pool()).err(), Some(SessionError::QueueNotFull));
    assert_eq!(s.phase(), Phase::Queue);
}

#[test]
fn start_needs_admin_and_queue_phase() {
    let (mut s, _) = full_queue();
    assert_eq!(s.start(false, &pool()).err(), Some(SessionError::NotAdmin));
    let ballot = s.start(true, &pool()).unwrap();
    assert_eq!(s.phase(), Phase::MapPick);
    assert_eq!(ballot.len(), 2);
    assert_eq!(ballot[0].symbol, '\u{1F1E6}');
    assert_eq!(ballot[0].map, "de_dust2");
    assert_eq!(ballot[1].symbol, '\u{1F1E7}');
    assert_eq!(ballot[1].map, "de_inferno");
    assert_eq!(s.start(true, &pool()).err(), Some(SessionError::WrongPhase));
}

#[test]
fn failed_map_change_aborts_setup() {
    let (mut s, _) = full_queue();
    s.start(true, &pool()).unwrap();
    assert_eq!(s.finish_map_vote(false), Ok(Phase::Queue));
    assert_eq!(s.queue().len(), 10);
    assert_eq!(s.finish_map_vote(true), Err(SessionError::WrongPhase));
}

#[test]
fn captains_without_swap_keep_registration_order() {
    let s = drafting();
    assert_eq!(s.phase(), Phase::Draft);
    assert_eq!(s.captain_a(), Some(1));
    assert_eq!(s.captain_b(), Some(2));
    assert_eq!(s.team_a(), &vec![1]);
    assert_eq!(s.team_b(), &vec![2]);
    assert_eq!(s.current_picker(), Some(1));
}

#[test]
fn coin_swap_makes_second_captain_pick_first() {
    let (mut s, _) = full_queue();
    s.start(true, &pool()).unwrap();
    s.finish_map_vote(true).unwrap();
    s.register_captain(4, true).unwrap();
    assert_eq!(s.register_captain(4, true), Err(SessionError::AlreadyCaptain));
    s.register_captain(9, true).unwrap();
    assert_eq!(s.captain_a(), Some(9));
    assert_eq!(s.captain_b(), Some(4));
    assert_eq!(s.current_picker(), Some(9));
    assert_eq!(s.team_a(), &vec![9]);
    assert_eq!(s.team_b(), &vec![4]);
}

#[test]
fn captain_with_coin_flip_seeds_both_teams() {
    let (mut s, _) = full_queue();
    s.start(true, &pool()).unwrap();
    s.finish_map_vote(true).unwrap();
    assert_eq!(s.captain(3), Ok(CaptainOutcome::Registered));
    assert_eq!(s.captain(6), Ok(CaptainOutcome::DraftStarted));
    let a = s.captain_a().unwrap();
    let b = s.captain_b().unwrap();
    assert!((a, b) == (3, 6) || (a, b) == (6, 3));
    assert_eq!(s.current_picker(), Some(a));
    assert_eq!(s.team_a(), &vec![a]);
    assert_eq!(s.team_b(), &vec![b]);
}

#[test]
fn coin_flip_gives_both_pick_orders() {
    let mut first_kept = false;
    let mut first_swapped = false;
    for _ in 0..64 {
        let (mut s, _) = full_queue();
        s.start(true, &pool()).unwrap();
        s.finish_map_vote(true).unwrap();
        s.captain(3).unwrap();
        s.captain(6).unwrap();
        first_kept |= s.captain_a() == Some(3);
        first_swapped |= s.captain_a() == Some(6);
    }
    assert!(first_kept && first_swapped);
}

#[test]
fn captain_must_be_queued_and_in_phase() {
    let (mut s, _) = full_queue();
    assert_eq!(s.captain(1), Err(SessionError::WrongPhase));
    s.start(true, &pool()).unwrap();
    s.finish_map_vote(true).unwrap();
    assert_eq!(s.captain(42), Err(SessionError::NotQueued));
}

#[test]
fn eight_alternating_picks_fill_both_teams() {
    let mut s = drafting();
    let order = [(1, 3), (2, 4), (1, 5), (2, 6), (1, 7), (2, 8), (1, 9), (2, 10)];
    for (i, (actor, target)) in order.iter().enumerate() {
        assert_eq!(s.current_picker(), Some(*actor));
        let team = if *actor == 1 { Team::A } else { Team::B };
        let r = s.pick(*actor, *target).unwrap();
        if i == 7 {
            assert_eq!(r, PickOutcome::DraftComplete(team));
        } else {
            assert_eq!(r, PickOutcome::Picked(team));
        }
    }
    assert_eq!(s.phase(), Phase::SidePick);
    assert_eq!(s.team_a(), &vec![1, 3, 5, 7, 9]);
    assert_eq!(s.team_b(), &vec![2, 4, 6, 8, 10]);
    assert!(s.unpicked_players().is_empty());
}

#[test]
fn pick_out_of_turn_fails_and_keeps_rosters() {
    let mut s = drafting();
    assert_eq!(s.pick(2, 5), Err(SessionError::NotYourTurn));
    assert_eq!(s.team_a(), &vec![1]);
    assert_eq!(s.team_b(), &vec![2]);
    s.pick(1, 5).unwrap();
    assert_eq!(s.pick(1, 6), Err(SessionError::NotYourTurn));
    assert_eq!(s.team_a(), &vec![1, 5]);
    assert_eq!(s.team_b(), &vec![2]);
    assert_eq!(s.current_picker(), Some(2));
}

#[test]
fn pick_errors() {
    let mut s = drafting();
    assert_eq!(s.pick(1, 42), Err(SessionError::NotQueued));
    assert_eq!(s.pick(3, 4), Err(SessionError::NotCaptain));
    assert_eq!(s.pick(1, 2), Err(SessionError::AlreadyPicked));
    assert_eq!(s.unpicked_players(), vec![3, 4, 5, 6, 7, 8, 9, 10]);
}

#[test]
fn side_choice_belongs_to_captain_b() {
    let mut s = drafted();
    assert_eq!(s.choose_side(1, Side::Ct), Err(SessionError::NotSecondCaptain));
    assert_eq!(s.choose_side(2, Side::T), Ok(()));
    assert_eq!(s.phase(), Phase::Ready);
    assert_eq!(s.team_b_start_side(), Some(Side::T));
    assert_eq!(s.choose_side(2, Side::Ct), Err(SessionError::WrongPhase));
}

#[test]
fn ready_check_launches_once_and_resets() {
    let mut s = drafted();
    s.choose_side(2, Side::Ct).unwrap();
    assert_eq!(s.ready(42).err(), Some(SessionError::NotQueued));
    for p in 1..=9u64 {
        assert!(matches!(s.ready(p), Ok(ReadyOutcome::Readied(n)) if n == p as usize));
    }
    assert!(matches!(s.ready(3), Ok(ReadyOutcome::AlreadyReady)));
    assert_eq!(s.unready_players(), vec![10]);
    let mut launches = 0;
    match s.ready(10) {
        Ok(ReadyOutcome::Launch(l)) => {
            launches += 1;
            assert_eq!(l.captain_a, 1);
            assert_eq!(l.captain_b, 2);
            assert_eq!(l.team_a, vec![1, 3, 5, 7, 9]);
            assert_eq!(l.team_b, vec![2, 4, 6, 8, 10]);
            assert_eq!(l.team_b_side, Side::Ct);
        }
        _ => panic!("the last ready player launches the match"),
    }
    assert_eq!(launches, 1);
    assert_eq!(s.phase(), Phase::Queue);
    assert!(s.queue().is_empty());
    assert!(s.ready_players().is_empty());
    assert_eq!(s.captain_a(), None);
    assert_eq!(s.ready(10).err(), Some(SessionError::WrongPhase));
}

#[test]
fn unready_withdraws_mark() {
    let mut s = drafted();
    s.choose_side(2, Side::T).unwrap();
    assert_eq!(s.unready(4), Err(SessionError::NotReady));
    s.ready(4).unwrap();
    s.ready(5).unwrap();
    assert_eq!(s.unready(4), Ok(1));
    assert_eq!(s.ready_players(), &vec![5]);
}

#[test]
fn cancel_keeps_queue_and_drops_draft() {
    let mut s = drafted();
    s.choose_side(2, Side::T).unwrap();
    s.ready(1).unwrap();
    let queue = s.queue().clone();
    assert_eq!(s.cancel(false), Err(SessionError::NotAdmin));
    assert_eq!(s.cancel(true), Ok(()));
    assert_eq!(s.phase(), Phase::Queue);
    assert_eq!(s.queue(), &queue);
    assert!(s.ready_players().is_empty());
    assert_eq!(s.captain_a(), None);
    assert_eq!(s.captain_b(), None);
    assert_eq!(s.current_picker(), None);
    assert!(s.team_a().is_empty());
    assert!(s.team_b().is_empty());
    assert_eq!(s.team_b_start_side(), None);
    assert_eq!(s.cancel(true), Err(SessionError::WrongPhase));
}

#[test]
fn cancel_from_every_phase_after_start() {
    for stop in 0..4 {
        let (mut s, _) = full_queue();
        s.start(true, &pool()).unwrap();
        if stop >= 1 {
            s.finish_map_vote(true).unwrap();
        }
        if stop >= 2 {
            s.register_captain(1, false).unwrap();
            s.register_captain(2, false).unwrap();
        }
        if stop >= 3 {
            s.pick(1, 3).unwrap();
        }
        assert_eq!(s.cancel(true), Ok(()));
        assert_eq!(s.phase(), Phase::Queue);
        assert_eq!(s.queue().len(), 10);
        assert!(s.team_a().is_empty());
    }
}
