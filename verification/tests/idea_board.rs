use prediction_verifier::{
    apply_vote_delta, delta_fits, reputation_weight, IdeaContract, IdeaError, VoteCount,
    VoteDirection, VoteRecord,
};

fn s(x: &str) -> String {
    String::from(x)
}

fn b(x: &str) -> Vec<u8> {
    x.as_bytes().to_vec()
}

/// A board with a reputation contract and one idea by Alice.
fn board_with_idea() -> IdeaContract {
    let mut board = IdeaContract::new();
    board.set_reputation_contract(s("CREPUTATION"));
    let id = board.create_idea(s("GALICE"), b("Title"), b("Body"), b("tools"), 10);
    assert_eq!(id, 1);
    board
}

fn vote_ok(board: &mut IdeaContract, id: i128, voter: &str, d: VoteDirection, score: i32) {
    assert!(board.vote_fits(id, &s(voter), d, score));
    board.vote(id, s(voter), d, score).unwrap();
}

#[test]
fn test_ids_are_sequential_and_listed_by_author() {
    let mut board = IdeaContract::new();
    assert_eq!(board.create_idea(s("GALICE"), b("a"), b("b"), b("x"), 1), 1);
    assert_eq!(board.create_idea(s("GBOB"), b("a"), b("b"), b("x"), 2), 2);
    assert_eq!(board.create_idea(s("GALICE"), b("a"), b("b"), b("y"), 3), 3);
    assert_eq!(board.list_ideas_by_author(&s("GALICE")), vec![1, 3]);
    assert_eq!(board.list_ideas_by_author(&s("GBOB")), vec![2]);
    assert_eq!(board.list_ideas_by_author(&s("GCAROL")), Vec::<i128>::new());
}

#[test]
fn test_created_idea_fields() {
    let mut board = IdeaContract::new();
    let id = board.create_idea(s("GALICE"), b("Title"), b("Body"), b("tools"), 77);
    let idea = board.get_idea(id).unwrap();
    assert_eq!(idea.id, 1);
    assert_eq!(idea.author, "GALICE");
    assert_eq!(idea.title, b("Title"));
    assert_eq!(idea.body, b("Body"));
    assert_eq!(idea.category, b("tools"));
    assert_eq!(idea.created_at, 77);
    assert_eq!(idea.updated_at, 77);
    assert!(!idea.deleted);
    assert_eq!(board.get_idea(2), Err(IdeaError::NotFound));
    assert_eq!(board.get_idea(0), Err(IdeaError::NotFound));
}

#[test]
fn test_update_and_delete_by_author() {
    let mut board = board_with_idea();
    assert_eq!(board.update_idea(&s("GBOB"), 1, b("x"), 20), Err(IdeaError::Unauthorized));
    assert_eq!(board.update_idea(&s("GALICE"), 9, b("x"), 20), Err(IdeaError::NotFound));
    board.update_idea(&s("GALICE"), 1, b("New body"), 20).unwrap();
    let idea = board.get_idea(1).unwrap();
    assert_eq!(idea.body, b("New body"));
    assert_eq!(idea.updated_at, 20);
    assert_eq!(idea.created_at, 10);

    assert_eq!(board.delete_idea(&s("GBOB"), 1, 30), Err(IdeaError::Unauthorized));
    board.delete_idea(&s("GALICE"), 1, 30).unwrap();
    let idea = board.get_idea(1).unwrap();
    assert!(idea.deleted);
    assert_eq!(idea.updated_at, 30);
    assert_eq!(board.delete_idea(&s("GALICE"), 1, 31), Err(IdeaError::Deleted));
    assert_eq!(board.update_idea(&s("GALICE"), 1, b("y"), 31), Err(IdeaError::Deleted));
    // A deleted idea stays listed under its author.
    assert_eq!(board.list_ideas_by_author(&s("GALICE")), vec![1]);
}

#[test]
fn test_vote_weights_and_tally() {
    let mut board = board_with_idea();
    vote_ok(&mut board, 1, "GBOB", VoteDirection::Up, 250);
    vote_ok(&mut board, 1, "GCAROL", VoteDirection::Down, 100);
    vote_ok(&mut board, 1, "GDAVE", VoteDirection::Up, 1_099);
    assert_eq!(
        board.get_vote_count(1),
        Ok(VoteCount { upvotes: 12, downvotes: 1, net_score: 11 })
    );
    assert_eq!(
        board.get_vote(1, &s("GBOB")),
        Some(VoteRecord { direction: VoteDirection::Up, weight: 2 })
    );
    assert_eq!(board.get_vote(1, &s("GERIN")), None);
    assert_eq!(board.get_vote(5, &s("GBOB")), None);
}

#[test]
fn test_vote_errors_in_order() {
    let mut board = IdeaContract::new();
    assert_eq!(board.vote(1, s("GBOB"), VoteDirection::Up, 500), Err(IdeaError::NotFound));
    board.create_idea(s("GALICE"), b("t"), b("b"), b("c"), 1);
    assert_eq!(
        board.reputation_source_for_vote(1, &s("GBOB")),
        Err(IdeaError::ReputationContractNotConfigured)
    );
    assert_eq!(
        board.vote(1, s("GBOB"), VoteDirection::Up, 500),
        Err(IdeaError::ReputationContractNotConfigured)
    );
    board.set_reputation_contract(s("CREP"));
    assert_eq!(board.reputation_source_for_vote(1, &s("GBOB")), Ok(s("CREP")));
    assert_eq!(board.vote(1, s("GBOB"), VoteDirection::Up, 99), Err(IdeaError::InvalidVoteWeight));
    assert_eq!(board.vote(1, s("GBOB"), VoteDirection::Up, -150), Err(IdeaError::InvalidVoteWeight));
    vote_ok(&mut board, 1, "GBOB", VoteDirection::Up, 100);
    assert_eq!(
        board.reputation_source_for_vote(1, &s("GBOB")),
        Err(IdeaError::VoteAlreadyExists)
    );
    assert_eq!(board.vote(1, s("GBOB"), VoteDirection::Down, 500), Err(IdeaError::VoteAlreadyExists));
    assert_eq!(board.get_vote_count(1), Ok(VoteCount { upvotes: 1, downvotes: 0, net_score: 1 }));
}

#[test]
fn test_change_vote() {
    let mut board = board_with_idea();
    assert_eq!(
        board.change_vote(1, &s("GBOB"), VoteDirection::Down, 300),
        Err(IdeaError::VoteNotFound)
    );
    assert_eq!(
        board.reputation_source_for_change(1, &s("GBOB")),
        Err(IdeaError::VoteNotFound)
    );
    vote_ok(&mut board, 1, "GBOB", VoteDirection::Up, 500);
    assert_eq!(board.reputation_source_for_change(1, &s("GBOB")), Ok(s("CREPUTATION")));
    assert!(board.change_vote_fits(1, &s("GBOB"), VoteDirection::Down, 300));
    board.change_vote(1, &s("GBOB"), VoteDirection::Down, 300).unwrap();
    assert_eq!(
        board.get_vote(1, &s("GBOB")),
        Some(VoteRecord { direction: VoteDirection::Down, weight: 3 })
    );
    assert_eq!(board.get_vote_count(1), Ok(VoteCount { upvotes: 0, downvotes: 3, net_score: -3 }));
    assert_eq!(
        board.change_vote(1, &s("GBOB"), VoteDirection::Up, 50),
        Err(IdeaError::InvalidVoteWeight)
    );
    assert_eq!(board.get_vote_count(1), Ok(VoteCount { upvotes: 0, downvotes: 3, net_score: -3 }));
}

#[test]
fn test_vote_then_remove_restores_count() {
    let mut board = board_with_idea();
    vote_ok(&mut board, 1, "GCAROL", VoteDirection::Down, 700);
    let before = board.get_vote_count(1).unwrap();
    vote_ok(&mut board, 1, "GBOB", VoteDirection::Up, 450);
    assert_eq!(board.get_vote_count(1), Ok(VoteCount { upvotes: 4, downvotes: 7, net_score: -3 }));
    let removed = board.remove_vote(1, &s("GBOB")).unwrap();
    assert_eq!(removed, VoteRecord { direction: VoteDirection::Up, weight: 4 });
    assert_eq!(board.get_vote_count(1), Ok(before));
    assert_eq!(board.get_vote(1, &s("GBOB")), None);
    assert_eq!(board.remove_vote(1, &s("GBOB")), Err(IdeaError::VoteNotFound));
    // The voter may vote again after withdrawing.
    vote_ok(&mut board, 1, "GBOB", VoteDirection::Down, 200);
    assert_eq!(board.get_vote_count(1), Ok(VoteCount { upvotes: 0, downvotes: 9, net_score: -9 }));
}

#[test]
fn test_deleted_idea_is_frozen() {
    let mut board = board_with_idea();
    vote_ok(&mut board, 1, "GBOB", VoteDirection::Up, 200);
    board.delete_idea(&s("GALICE"), 1, 50).unwrap();
    assert_eq!(board.vote(1, s("GCAROL"), VoteDirection::Up, 200), Err(IdeaError::Deleted));
    assert_eq!(board.change_vote(1, &s("GBOB"), VoteDirection::Down, 200), Err(IdeaError::Deleted));
    assert_eq!(board.remove_vote(1, &s("GBOB")), Err(IdeaError::Deleted));
    assert_eq!(board.get_vote_count(1), Err(IdeaError::Deleted));
    // The vote itself is still on record.
    assert_eq!(
        board.get_vote(1, &s("GBOB")),
        Some(VoteRecord { direction: VoteDirection::Up, weight: 2 })
    );
}

#[test]
fn test_votes_are_per_idea() {
    let mut board = board_with_idea();
    board.create_idea(s("GBOB"), b("t2"), b("b2"), b("tools"), 11);
    vote_ok(&mut board, 1, "GCAROL", VoteDirection::Up, 300);
    vote_ok(&mut board, 2, "GCAROL", VoteDirection::Down, 500);
    assert_eq!(board.get_vote_count(1), Ok(VoteCount { upvotes: 3, downvotes: 0, net_score: 3 }));
    assert_eq!(board.get_vote_count(2), Ok(VoteCount { upvotes: 0, downvotes: 5, net_score: -5 }));
}

#[test]
fn test_vote_fits_detects_overflow() {
    let mut board = board_with_idea();
    // Each maximal score weighs 21_474_836; a hundred of them overflow an i32.
    let mut voters = 0;
    loop {
        let voter = format!("GVOTER{}", voters);
        if !board.vote_fits(1, &voter, VoteDirection::Up, i32::MAX) {
            break;
        }
        board.vote(1, voter, VoteDirection::Up, i32::MAX).unwrap();
        voters += 1;
    }
    assert_eq!(voters, 100);
    let c = board.get_vote_count(1).unwrap();
    assert_eq!(c.upvotes, 100 * 21_474_836);
    assert_eq!(c.net_score, c.upvotes);
}

#[test]
fn test_apply_vote_delta_values() {
    let zero = VoteCount { upvotes: 0, downvotes: 0, net_score: 0 };
    let up3 = VoteRecord { direction: VoteDirection::Up, weight: 3 };
    let down2 = VoteRecord { direction: VoteDirection::Down, weight: 2 };
    let c1 = apply_vote_delta(zero, None, Some(up3));
    assert_eq!(c1, VoteCount { upvotes: 3, downvotes: 0, net_score: 3 });
    let c2 = apply_vote_delta(c1, Some(up3), Some(down2));
    assert_eq!(c2, VoteCount { upvotes: 0, downvotes: 2, net_score: -2 });
    let c3 = apply_vote_delta(c2, Some(down2), None);
    assert_eq!(c3, zero);
    assert_eq!(apply_vote_delta(c1, None, None), c1);
}

#[test]
fn test_delta_fits_bounds() {
    let c = VoteCount { upvotes: i32::MAX - 1, downvotes: 0, net_score: i32::MAX - 1 };
    let one = VoteRecord { direction: VoteDirection::Up, weight: 1 };
    let two = VoteRecord { direction: VoteDirection::Up, weight: 2 };
    assert!(delta_fits(c, None, Some(one)));
    assert!(!delta_fits(c, None, Some(two)));
    assert!(delta_fits(c, Some(one), Some(two)));
}

#[test]
fn test_reputation_weight_values() {
    assert_eq!(reputation_weight(100), Ok(1));
    assert_eq!(reputation_weight(199), Ok(1));
    assert_eq!(reputation_weight(250), Ok(2));
    assert_eq!(reputation_weight(i32::MAX), Ok(21_474_836));
    assert_eq!(reputation_weight(99), Err(IdeaError::InvalidVoteWeight));
    assert_eq!(reputation_weight(0), Err(IdeaError::InvalidVoteWeight));
    assert_eq!(reputation_weight(-500), Err(IdeaError::InvalidVoteWeight));
}

#[test]
fn test_idea_error_codes() {
    assert_eq!(IdeaError::NotFound.code(), 1);
    assert_eq!(IdeaError::Unauthorized.code(), 2);
    assert_eq!(IdeaError::Deleted.code(), 3);
    assert_eq!(IdeaError::VoteAlreadyExists.code(), 4);
    assert_eq!(IdeaError::VoteNotFound.code(), 5);
    assert_eq!(IdeaError::ReputationContractNotConfigured.code(), 6);
    assert_eq!(IdeaError::InvalidVoteWeight.code(), 7);
}

#[test]
fn test_text_fields_keep_any_bytes() {
    let mut board = IdeaContract::new();
    let title = vec![0xff, 0xfe, 0x00, 0x41];
    let body = vec![0xc3, 0x28];
    let category = vec![0x80];
    let id = board.create_idea(s("GALICE"), title.clone(), body.clone(), category.clone(), 4);
    let id2 = board.create_idea(s("GALICE"), b("t"), b("b"), category.clone(), 5);
    assert_eq!((id, id2), (1, 2));
    let idea = board.get_idea(id).unwrap();
    assert_eq!(idea.title, title);
    assert_eq!(idea.body, body);
    assert_eq!(idea.category, category);
    board.update_idea(&s("GALICE"), 2, vec![0xf0, 0x9f], 6).unwrap();
    assert_eq!(board.get_idea(2).unwrap().body, vec![0xf0, 0x9f]);
}

#[test]
fn test_change_keeps_other_votes() {
    let mut board = board_with_idea();
    vote_ok(&mut board, 1, "GBOB", VoteDirection::Up, 300);
    vote_ok(&mut board, 1, "GCAROL", VoteDirection::Up, 500);
    board.change_vote(1, &s("GBOB"), VoteDirection::Down, 200).unwrap();
    assert_eq!(
        board.get_vote(1, &s("GCAROL")),
        Some(VoteRecord { direction: VoteDirection::Up, weight: 5 })
    );
    assert_eq!(
        board.get_vote(1, &s("GBOB")),
        Some(VoteRecord { direction: VoteDirection::Down, weight: 2 })
    );
    assert_eq!(board.get_vote_count(1), Ok(VoteCount { upvotes: 5, downvotes: 2, net_score: 3 }));
    // The same change done as withdrawal then a new vote gives the same tally.
    let mut other = board_with_idea();
    vote_ok(&mut other, 1, "GBOB", VoteDirection::Up, 300);
    vote_ok(&mut other, 1, "GCAROL", VoteDirection::Up, 500);
    other.remove_vote(1, &s("GBOB")).unwrap();
    vote_ok(&mut other, 1, "GBOB", VoteDirection::Down, 200);
    assert_eq!(other.get_vote_count(1), board.get_vote_count(1));
}

#[test]
fn test_vote_persists_through_other_calls() {
    let mut board = board_with_idea();
    vote_ok(&mut board, 1, "GBOB", VoteDirection::Up, 300);
    board.create_idea(s("GCAROL"), b("t"), b("b"), b("c"), 12);
    vote_ok(&mut board, 1, "GCAROL", VoteDirection::Down, 300);
    board.remove_vote(1, &s("GCAROL")).unwrap();
    board.update_idea(&s("GALICE"), 1, b("edited"), 13).unwrap();
    board.change_vote(1, &s("GBOB"), VoteDirection::Down, 400).unwrap();
    assert_eq!(board.vote(1, s("GBOB"), VoteDirection::Up, 300), Err(IdeaError::VoteAlreadyExists));
    assert_eq!(board.vote(1, s("GBOB"), VoteDirection::Down, 300), Err(IdeaError::VoteAlreadyExists));
}

#[test]
fn test_ids_increase_across_calls() {
    let mut board = board_with_idea();
    vote_ok(&mut board, 1, "GBOB", VoteDirection::Up, 300);
    board.delete_idea(&s("GALICE"), 1, 20).unwrap();
    let id2 = board.create_idea(s("GBOB"), b("t"), b("b"), b("c"), 21);
    let id3 = board.create_idea(s("GALICE"), b("t"), b("b"), b("c"), 22);
    assert_eq!((id2, id3), (2, 3));
    assert_eq!(board.list_ideas_by_author(&s("GALICE")), vec![1, 3]);
}
