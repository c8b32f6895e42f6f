use sateater::vault::{
    board, land, land_at, very_tustworthy_rng, BattleConfig, LandAction, LandEvent, LandState,
};
use sateater::{Status, BOARD_SIZE};

fn respond(action: LandAction) -> (Status, bool, u8, u8, String) {
    match action {
        LandAction::Respond { status, response } => {
            (status, response.success, response.x, response.y, response.message)
        }
        _ => panic!("expected a response"),
    }
}

fn total(config: &BattleConfig) -> u64 {
    config.board.iter().flatten().map(|sq| sq.1 as u64).sum()
}

fn consistent(config: &BattleConfig) -> bool {
    config.board.len() == 4
        && config.board.iter().all(|row| {
            row.len() == 4 && row.iter().all(|sq| sq.0 <= 4 && ((sq.0 == 0) == (sq.1 == 0)))
        })
}

#[test]
fn new_board_is_empty() {
    let config = BattleConfig::new();
    assert_eq!(config.board, vec![vec![(0u8, 0u32); 4]; 4]);
    assert_eq!(BOARD_SIZE, 4);
}

#[test]
fn board_splits_colors_and_amounts() {
    let mut config = BattleConfig::new();
    config.board[1][3] = (2, 70);
    config.board[3][0] = (4, 5);
    let (status, response) = board(&config);
    assert_eq!(status, Status::Accepted);
    let mut colors = vec![vec![0u8; 4]; 4];
    colors[1][3] = 2;
    colors[3][0] = 4;
    let mut amounts = vec![vec![0u32; 4]; 4];
    amounts[1][3] = 70;
    amounts[3][0] = 5;
    assert_eq!(response.colors, colors);
    assert_eq!(response.amounts, amounts);
}

#[test]
fn invoice_token_is_turned_away() {
    let mut config = BattleConfig::new();
    let (state, action) = land_at(
        &mut config,
        LandState::Ready,
        LandEvent::Request { token: "lnbc10u1p3".to_string(), color: 2 },
        0,
        0,
    );
    assert_eq!(state, LandState::Ready);
    assert_eq!(
        respond(action),
        (Status::InternalServerError, false, 0, 0, "🚬 Close but no cigar.".to_string())
    );
    assert_eq!(config.board, BattleConfig::new().board);
}

#[test]
fn invoice_check_comes_before_color_check() {
    let mut config = BattleConfig::new();
    let (_, action) = land_at(
        &mut config,
        LandState::Ready,
        LandEvent::Request { token: "ln".to_string(), color: 9 },
        0,
        0,
    );
    assert_eq!(respond(action).4, "🚬 Close but no cigar.");
}

#[test]
fn invalid_colors_are_turned_away() {
    for color in [0u8, 5, 255] {
        let mut config = BattleConfig::new();
        let (state, action) = land_at(
            &mut config,
            LandState::Ready,
            LandEvent::Request { token: "cashuA123".to_string(), color },
            0,
            0,
        );
        assert_eq!(state, LandState::Ready);
        assert_eq!(
            respond(action),
            (Status::InternalServerError, false, 0, 0, "Invalid color selected?!".to_string())
        );
        assert_eq!(config.board, BattleConfig::new().board);
    }
}

#[test]
fn valid_request_asks_to_redeem_the_token() {
    for color in 1u8..=4 {
        let mut config = BattleConfig::new();
        let (state, action) = land_at(
            &mut config,
            LandState::Ready,
            LandEvent::Request { token: "cashuA123".to_string(), color },
            0,
            0,
        );
        assert_eq!(state, LandState::AwaitingPayment { color });
        match action {
            LandAction::Receive { token } => assert_eq!(token, "cashuA123"),
            _ => panic!("expected a redeem"),
        }
    }
}

#[test]
fn two_byte_first_char_is_no_invoice() {
    let mut config = BattleConfig::new();
    let (state, _) = land_at(
        &mut config,
        LandState::Ready,
        LandEvent::Request { token: "éln".to_string(), color: 1 },
        0,
        0,
    );
    assert_eq!(state, LandState::AwaitingPayment { color: 1 });
}

#[test]
fn rejected_token_leaves_board() {
    let mut config = BattleConfig::new();
    config.board[2][2] = (1, 9);
    let before = config.board.clone();
    let (state, action) = land_at(
        &mut config,
        LandState::AwaitingPayment { color: 1 },
        LandEvent::Paid { amount_paid: 0 },
        2,
        2,
    );
    assert_eq!(state, LandState::Ready);
    assert_eq!(
        respond(action),
        (Status::InternalServerError, false, 0, 0, "⚠️ Key Rejected ⚠️".to_string())
    );
    assert_eq!(config.board, before);
}

#[test]
fn full_landing_sequence() {
    let mut config = BattleConfig::new();
    // first landing on an empty square
    let (state, action) = land_at(
        &mut config,
        LandState::AwaitingPayment { color: 2 },
        LandEvent::Paid { amount_paid: 10 },
        1,
        2,
    );
    assert_eq!(state, LandState::Ready);
    assert_eq!(
        respond(action),
        (Status::Accepted, true, 1, 2, "🔒 Key not ready. 🔒 (1, 2)".to_string())
    );
    assert_eq!(config.board[2][1], (2, 10));
    // another colour lands on it
    let (_, action) = land_at(
        &mut config,
        LandState::AwaitingPayment { color: 3 },
        LandEvent::Paid { amount_paid: 5 },
        1,
        2,
    );
    assert_eq!(
        respond(action),
        (Status::Accepted, true, 1, 2, "💔 Key Failed. Valid key was (1, 2)".to_string())
    );
    assert_eq!(config.board[2][1], (3, 15));
    // the same colour unlocks it
    let (state, action) = land_at(
        &mut config,
        LandState::AwaitingPayment { color: 3 },
        LandEvent::Paid { amount_paid: 7 },
        1,
        2,
    );
    assert_eq!(state, LandState::AwaitingEcash { x: 1, y: 2 });
    match action {
        LandAction::Send { amount } => assert_eq!(amount, 15),
        _ => panic!("expected a payout"),
    }
    assert_eq!(config.board[2][1], (3, 15));
    let (state, action) = land_at(
        &mut config,
        state,
        LandEvent::Unlocked { ecash: "cashuXYZ".to_string() },
        3,
        3,
    );
    assert_eq!(state, LandState::Ready);
    assert_eq!(
        respond(action),
        (Status::Accepted, true, 1, 2, "🎈 Valid Key (1, 2). 🎈\nUnlocked:\n\ncashuXYZ".to_string())
    );
    assert_eq!(config.board, BattleConfig::new().board);
}

#[test]
fn deposit_adds_payment_to_total() {
    let mut config = BattleConfig::new();
    config.board[0][0] = (1, 100);
    let before = total(&config);
    land_at(&mut config, LandState::AwaitingPayment { color: 2 }, LandEvent::Paid { amount_paid: 42 }, 0, 0);
    assert_eq!(total(&config), before + 42);
    assert_eq!(config.board[0][0], (2, 142));
}

#[test]
fn unlock_takes_square_amount_out() {
    let mut config = BattleConfig::new();
    config.board[3][1] = (4, 77);
    config.board[0][0] = (1, 3);
    let before = total(&config);
    let (state, action) = land_at(
        &mut config,
        LandState::AwaitingPayment { color: 4 },
        LandEvent::Paid { amount_paid: 1 },
        1,
        3,
    );
    let sent = match action {
        LandAction::Send { amount } => amount,
        _ => panic!("expected a payout"),
    };
    assert_eq!(sent, 77);
    assert_eq!(total(&config), before);
    land(&mut config, state, LandEvent::Unlocked { ecash: "t".to_string() });
    assert_eq!(total(&config) + sent as u64, before);
    assert_eq!(config.board[3][1], (0, 0));
}

#[test]
fn random_landings_stay_on_board_and_consistent() {
    let mut config = BattleConfig::new();
    for round in 0..200u32 {
        let color = (round % 4) as u8 + 1;
        let (state, action) = land(
            &mut config,
            LandState::Ready,
            LandEvent::Request { token: "cashuT".to_string(), color },
        );
        assert!(matches!(action, LandAction::Receive { .. }));
        let before = total(&config);
        let (state, action) = land(&mut config, state, LandEvent::Paid { amount_paid: 3 });
        match action {
            LandAction::Respond { status, response } => {
                assert_eq!(status, Status::Accepted);
                assert!(response.x < 4 && response.y < 4);
                assert_eq!(total(&config), before + 3);
            }
            LandAction::Send { amount } => {
                assert!(amount > 0);
                match state {
                    LandState::AwaitingEcash { x, y } => {
                        assert!(x < 4 && y < 4);
                        assert_eq!(config.board[y as usize][x as usize].1, amount);
                    }
                    _ => panic!("expected to await the payout"),
                }
                let (state, _) = land(&mut config, state, LandEvent::Unlocked { ecash: "e".to_string() });
                assert_eq!(state, LandState::Ready);
                assert_eq!(total(&config) + amount as u64, before);
            }
            LandAction::Receive { .. } => panic!("unexpected redeem"),
        }
        assert!(consistent(&config));
    }
}

#[test]
fn rng_stays_on_board() {
    for _ in 0..100 {
        let (x, y) = very_tustworthy_rng();
        assert!(x < BOARD_SIZE && y < BOARD_SIZE);
    }
}

#[test]
fn larger_board_and_full_square_of_own_colour() {
    let mut config = BattleConfig { board: vec![vec![(0u8, 0u32); 5]; 6] };
    config.board[1][1] = (3, u32::MAX);
    let (state, action) = land_at(
        &mut config,
        LandState::AwaitingPayment { color: 3 },
        LandEvent::Paid { amount_paid: 9 },
        1,
        1,
    );
    assert_eq!(state, LandState::AwaitingEcash { x: 1, y: 1 });
    match action {
        LandAction::Send { amount } => assert_eq!(amount, u32::MAX),
        _ => panic!("expected a payout"),
    }
    let (_, action) = land_at(&mut config, state, LandEvent::Unlocked { ecash: "e".to_string() }, 0, 0);
    assert!(matches!(action, LandAction::Respond { .. }));
    assert_eq!(config.board[1][1], (0, 0));
    assert_eq!(config.board.len(), 6);
    assert!(config.board.iter().all(|row| row.len() == 5));
}
