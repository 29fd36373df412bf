use demonlist::claim::{ClaimError, ClaimStore, DatabasePlayer, PlayerClaim};

fn store_with_players(ids: &[i32]) -> ClaimStore {
    let mut store = ClaimStore::new();
    for &id in ids {
        store.register_player(id);
    }
    store
}

#[test]
fn first_claim_creates_unverified_row() {
    let mut store = store_with_players(&[7]);
    let player = DatabasePlayer { id: 7 };

    let claim = player.initiate_claim(42, &mut store).unwrap();

    assert_eq!(claim, PlayerClaim { user_id: 42, player_id: 7, verified: false });
    assert_eq!(store.claim_of(42), Some(claim));
    assert_eq!(store.num_claims(), 1);
}

#[test]
fn reclaim_supersedes_prior_claim() {
    let mut store = store_with_players(&[1, 2]);
    let first = DatabasePlayer { id: 1 };
    let second = DatabasePlayer { id: 2 };

    first.initiate_claim(42, &mut store).unwrap();
    let claim = second.initiate_claim(42, &mut store).unwrap();

    assert_eq!(claim, PlayerClaim { user_id: 42, player_id: 2, verified: false });
    assert_eq!(store.claim_of(42), Some(claim));
    assert_eq!(store.num_claims(), 1);
}

#[test]
fn repeated_claim_is_idempotent() {
    let mut store = store_with_players(&[5]);
    let player = DatabasePlayer { id: 5 };

    let once = player.initiate_claim(9, &mut store).unwrap();
    let twice = player.initiate_claim(9, &mut store).unwrap();

    assert_eq!(once, twice);
    assert!(!twice.verified);
    assert_eq!(store.claim_of(9), Some(twice));
    assert_eq!(store.num_claims(), 1);
}

#[test]
fn later_claim_wins_in_either_order() {
    let p1 = DatabasePlayer { id: 1 };
    let p2 = DatabasePlayer { id: 2 };

    let mut store = store_with_players(&[1, 2]);
    p1.initiate_claim(42, &mut store).unwrap();
    p2.initiate_claim(42, &mut store).unwrap();
    assert_eq!(store.claim_of(42).unwrap().player_id, 2);
    assert_eq!(store.num_claims(), 1);

    let mut store = store_with_players(&[1, 2]);
    p2.initiate_claim(42, &mut store).unwrap();
    p1.initiate_claim(42, &mut store).unwrap();
    assert_eq!(store.claim_of(42).unwrap().player_id, 1);
    assert_eq!(store.num_claims(), 1);
}

#[test]
fn different_users_share_a_player() {
    let mut store = store_with_players(&[3]);
    let player = DatabasePlayer { id: 3 };

    let one = player.initiate_claim(10, &mut store).unwrap();
    let two = player.initiate_claim(20, &mut store).unwrap();

    assert_eq!(store.claim_of(10), Some(one));
    assert_eq!(store.claim_of(20), Some(two));
    assert!(!one.verified);
    assert!(!two.verified);
    assert_eq!(store.num_claims(), 2);
}

#[test]
fn claim_on_missing_player_fails_and_changes_nothing() {
    let mut store = store_with_players(&[1]);
    let known = DatabasePlayer { id: 1 };
    let unknown = DatabasePlayer { id: 99 };

    let prior = known.initiate_claim(42, &mut store).unwrap();
    let result = unknown.initiate_claim(42, &mut store);

    assert_eq!(result, Err(ClaimError::InvalidReference));
    assert_eq!(store.claim_of(42), Some(prior));
    assert_eq!(store.num_claims(), 1);
}

#[test]
fn claim_on_empty_store_fails() {
    let mut store = ClaimStore::new();
    let player = DatabasePlayer { id: 1 };

    assert_eq!(player.initiate_claim(42, &mut store), Err(ClaimError::InvalidReference));
    assert_eq!(store.num_claims(), 0);
    assert_eq!(store.claim_of(42), None);
}

#[test]
fn registration_is_idempotent_and_visible() {
    let mut store = ClaimStore::new();
    assert!(!store.has_player(4));

    store.register_player(4);
    store.register_player(4);

    assert!(store.has_player(4));
    assert!(!store.has_player(5));
}
