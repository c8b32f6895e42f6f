//! The vault game.
//!
//! The vault is a square board of `BOARD_SIZE` by `BOARD_SIZE` squares. A
//! player pays with an ecash token and picks a colour; the payment lands on a
//! random square. If the square already holds the player's colour, its sats
//! are unlocked and paid out to the player as a fresh token. Otherwise the
//! payment is added to the square, which takes the player's colour.
//!
//! Redeeming and minting tokens are done by the cashu wallet, outside this
//! library, so one landing is a short exchange: [`land`] is a state machine
//! that, given the current state and what just happened, updates the board and
//! says what to do next.

use vstd::prelude::*;
use vstd::string::*;

use rand::Rng;

use crate::text::{decimal, decimal_string};
use crate::{Status, BOARD_SIZE};

verus! {

/// The number of player colours; colours are `1` to `PLAYER_COLORS`, and `0`
/// marks a square that no player holds.
pub const PLAYER_COLORS: u8 = 4;

/// The board, by row (`y`) then column (`x`); each square holds a colour
/// (`0` for none) and an amount of sats.
pub type BoardView = Seq<Seq<(u8, u32)>>;

/// The state of the vault game.
#[derive(Debug)]
pub struct BattleConfig {
    pub board: Vec<Vec<(u8, u32)>>,
}

impl View for BattleConfig {
    type V = BoardView;

    open spec fn view(&self) -> BoardView {
        self.board@.map_values(|row: Vec<(u8, u32)>| row@)
    }
}

/// The board has at least `BOARD_SIZE` rows, and each of the first
/// `BOARD_SIZE` rows has at least `BOARD_SIZE` squares: every square that a
/// landing can pick is there.
pub open spec fn board_shape_ok(b: BoardView) -> bool {
    &&& b.len() >= BOARD_SIZE as nat
    &&& forall|i: int| 0 <= i < BOARD_SIZE ==> (#[trigger] b[i]).len() >= BOARD_SIZE as nat
}

/// The board is exactly `BOARD_SIZE` rows of `BOARD_SIZE` squares.
pub open spec fn board_is_square(b: BoardView) -> bool {
    &&& b.len() == BOARD_SIZE as nat
    &&& forall|i: int| 0 <= i < b.len() ==> (#[trigger] b[i]).len() == BOARD_SIZE as nat
}

/// The two boards have the same number of rows, and rows of the same lengths.
pub open spec fn same_shape(b: BoardView, b2: BoardView) -> bool {
    &&& b2.len() == b.len()
    &&& forall|i: int| 0 <= i < b.len() ==> (#[trigger] b2[i]).len() == b[i].len()
}

/// Every square holds one of the four player colours or none, and a square
/// holds sats exactly when it holds a colour.
pub open spec fn squares_consistent(b: BoardView) -> bool {
    forall|i: int, j: int|
        0 <= i < b.len() && 0 <= j < b[i].len() ==> {
            &&& (#[trigger] b[i][j]).0 <= PLAYER_COLORS
            &&& (b[i][j].0 == 0 <==> b[i][j].1 == 0)
        }
}

/// The board that the vault starts with: every square empty.
pub open spec fn empty_board() -> BoardView {
    Seq::new(BOARD_SIZE as nat, |i: int| Seq::new(BOARD_SIZE as nat, |j: int| (0u8, 0u32)))
}

impl BattleConfig {
    /// A vault whose squares are all empty.
    pub fn new() -> (c: Self)
        ensures
            c@ == empty_board(),
    {
        let mut board: Vec<Vec<(u8, u32)>> = Vec::new();
        let mut i: u8 = 0;
        while i < BOARD_SIZE
            invariant
                i <= BOARD_SIZE,
                board@.len() == i,
                forall|k: int|
                    0 <= k < i ==> (#[trigger] board@[k])@ == Seq::new(
                        BOARD_SIZE as nat,
                        |j: int| (0u8, 0u32),
                    ),
            decreases BOARD_SIZE - i,
        {
            let mut row: Vec<(u8, u32)> = Vec::new();
            let mut j: u8 = 0;
            while j < BOARD_SIZE
                invariant
                    j <= BOARD_SIZE,
                    row@ == Seq::new(j as nat, |k: int| (0u8, 0u32)),
                decreases BOARD_SIZE - j,
            {
                row.push((0, 0));
                j = j + 1;
                assert(row@ =~= Seq::new(j as nat, |k: int| (0u8, 0u32)));
            }
            board.push(row);
            i = i + 1;
        }
        let c = BattleConfig { board };
        assert(c@ =~= empty_board());
        c
    }
}

/// What a landing answers.
#[derive(Debug)]
pub struct LandResponse {
    pub success: bool,
    pub x: u8,
    pub y: u8,
    pub message: String,
}

/// A landing answer, with its message as a sequence of characters.
pub struct LandResponseView {
    pub success: bool,
    pub x: u8,
    pub y: u8,
    pub message: Seq<char>,
}

impl View for LandResponse {
    type V = LandResponseView;

    open spec fn view(&self) -> LandResponseView {
        LandResponseView { success: self.success, x: self.x, y: self.y, message: self.message@ }
    }
}

/// Where a landing stands.
#[derive(Clone, Copy, Debug, PartialEq, Eq, Structural)]
pub enum LandState {
    /// No landing under way.
    Ready,
    /// The player's token is being redeemed; `color` is the colour chosen.
    AwaitingPayment { color: u8 },
    /// The square at (`x`, `y`) is being paid out as a fresh token.
    AwaitingEcash { x: u8, y: u8 },
}

/// What happened.
#[derive(Debug)]
pub enum LandEvent {
    /// A player asks to land with `token`, in `color`.
    Request { token: String, color: u8 },
    /// Redeeming the player's token brought `amount_paid` sats (0 if it was
    /// refused).
    Paid { amount_paid: u32 },
    /// The square's sats were minted into the token `ecash`.
    Unlocked { ecash: String },
}

/// An event, with its texts as sequences of characters.
pub enum LandEventView {
    Request { token: Seq<char>, color: u8 },
    Paid { amount_paid: u32 },
    Unlocked { ecash: Seq<char> },
}

impl View for LandEvent {
    type V = LandEventView;

    open spec fn view(&self) -> LandEventView {
        match self {
            LandEvent::Request { token, color } => LandEventView::Request {
                token: token@,
                color: *color,
            },
            LandEvent::Paid { amount_paid } => LandEventView::Paid { amount_paid: *amount_paid },
            LandEvent::Unlocked { ecash } => LandEventView::Unlocked { ecash: ecash@ },
        }
    }
}

/// What to do next.
#[derive(Debug)]
pub enum LandAction {
    /// Redeem `token` with the wallet, then report what it brought.
    Receive { token: String },
    /// Mint a token of `amount` sats with the wallet, then report it.
    Send { amount: u32 },
    /// Answer the player; the landing is over.
    Respond { status: Status, response: LandResponse },
}

/// An action, with its texts as sequences of characters.
pub enum LandActionView {
    Receive { token: Seq<char> },
    Send { amount: u32 },
    Respond { status: Status, response: LandResponseView },
}

impl View for LandAction {
    type V = LandActionView;

    open spec fn view(&self) -> LandActionView {
        match self {
            LandAction::Receive { token } => LandActionView::Receive { token: token@ },
            LandAction::Send { amount } => LandActionView::Send { amount: *amount },
            LandAction::Respond { status, response } => LandActionView::Respond {
                status: *status,
                response: response@,
            },
        }
    }
}

/// The event is the one that the state waits for.
pub open spec fn event_expected(state: LandState, event: LandEventView) -> bool {
    match (state, event) {
        (LandState::Ready, LandEventView::Request { .. }) => true,
        (LandState::AwaitingPayment { .. }, LandEventView::Paid { .. }) => true,
        (LandState::AwaitingEcash { .. }, LandEventView::Unlocked { .. }) => true,
        _ => false,
    }
}

/// The coordinates that the state holds are on the board, and the colour it
/// holds is a player colour.
pub open spec fn state_ok(state: LandState) -> bool {
    match state {
        LandState::Ready => true,
        LandState::AwaitingPayment { color } => 1 <= color <= PLAYER_COLORS,
        LandState::AwaitingEcash { x, y } => x < BOARD_SIZE && y < BOARD_SIZE,
    }
}

/// Slicing the first two bytes off `token` does not panic: it has at least
/// two bytes and its second byte ends a character.
pub open spec fn token_prefix_sliceable(token: Seq<char>) -> bool {
    vstd::utf8::is_char_boundary(vstd::utf8::encode_utf8(token), 2)
}

/// The token begins with "ln", the prefix of a Lightning invoice.
pub open spec fn starts_with_ln(token: Seq<char>) -> bool {
    token.len() >= 2 && token[0] == 'l' && token[1] == 'n'
}

/// The colour that a landing under way was asked for (`0` if none).
pub open spec fn landing_color(state: LandState) -> u8 {
    match state {
        LandState::AwaitingPayment { color } => color,
        _ => 0,
    }
}

/// If the event is a payment that lands on (`x`, `y`) and is added to that
/// square (it brought sats and the square holds another colour), the sum
/// fits in a `u32`.
pub open spec fn deposit_fits_at(b: BoardView, state: LandState, event: LandEventView, x: u8, y: u8) -> bool {
    event matches LandEventView::Paid { amount_paid } ==> {
        ||| amount_paid == 0
        ||| b[y as int][x as int].0 == landing_color(state)
        ||| amount_paid + b[y as int][x as int].1 <= u32::MAX
    }
}

/// What a landing step needs of its arguments: a board with every square that
/// can be picked, a consistent state, the event it waits for, and a token
/// whose first two bytes can be sliced off.
pub open spec fn land_requires(b: BoardView, state: LandState, event: LandEventView) -> bool {
    &&& board_shape_ok(b)
    &&& state_ok(state)
    &&& event_expected(state, event)
    &&& (event matches LandEventView::Request { token, .. } ==> token_prefix_sliceable(token))
}

/// `prefix`, then `x`, a comma and a space, `y`, then `suffix`.
pub open spec fn coords_text(prefix: Seq<char>, x: u8, y: u8, suffix: Seq<char>) -> Seq<char> {
    prefix + decimal(x as nat) + ", "@ + decimal(y as nat) + suffix
}

/// The action that answers the player.
pub open spec fn respond(status: Status, success: bool, x: u8, y: u8, message: Seq<char>) -> LandActionView {
    LandActionView::Respond {
        status,
        response: LandResponseView { success, x, y, message },
    }
}

/// The board with the square at (`x`, `y`) replaced by `sq`.
pub open spec fn set_square(b: BoardView, x: u8, y: u8, sq: (u8, u32)) -> BoardView {
    b.update(y as int, b[y as int].update(x as int, sq))
}

/// One step of a landing: from the board, the state and what happened, the
/// new board, the new state and what to do next; (`x`, `y`) is the square
/// that a payment lands on.
pub open spec fn land_next(
    b: BoardView,
    state: LandState,
    event: LandEventView,
    x: u8,
    y: u8,
) -> (BoardView, LandState, LandActionView) {
    match event {
        LandEventView::Request { token, color } => {
            if starts_with_ln(token) {
                (b, LandState::Ready, respond(Status::InternalServerError, false, 0, 0, "🚬 Close but no cigar."@))
            } else if color > PLAYER_COLORS || color == 0 {
                (b, LandState::Ready, respond(Status::InternalServerError, false, 0, 0, "Invalid color selected?!"@))
            } else {
                (b, LandState::AwaitingPayment { color }, LandActionView::Receive { token })
            }
        },
        LandEventView::Paid { amount_paid } => {
            let color: u8 = landing_color(state);
            if amount_paid == 0 {
                (b, LandState::Ready, respond(Status::InternalServerError, false, 0, 0, "⚠️ Key Rejected ⚠️"@))
            } else {
                let square = b[y as int][x as int];
                if color == square.0 {
                    (b, LandState::AwaitingEcash { x, y }, LandActionView::Send { amount: square.1 })
                } else {
                    let b2 = set_square(b, x, y, (color, (amount_paid + square.1) as u32));
                    if square.0 != 0 {
                        (b2, LandState::Ready, respond(Status::Accepted, true, x, y,
                            coords_text("💔 Key Failed. Valid key was ("@, x, y, ")"@)))
                    } else {
                        (b2, LandState::Ready, respond(Status::Accepted, true, x, y,
                            coords_text("🔒 Key not ready. 🔒 ("@, x, y, ")"@)))
                    }
                }
            }
        },
        LandEventView::Unlocked { ecash } => {
            let (ux, uy): (u8, u8) = match state {
                LandState::AwaitingEcash { x, y } => (x, y),
                _ => (0u8, 0u8),
            };
            (set_square(b, ux, uy, (0u8, 0u32)), LandState::Ready, respond(Status::Accepted, true, ux, uy,
                coords_text("🎈 Valid Key ("@, ux, uy, "). 🎈\nUnlocked:\n\n"@ + ecash)))
        },
    }
}

fn coords_message(prefix: &str, x: u8, y: u8, suffix: &str) -> (m: String)
    ensures
        m@ == coords_text(prefix@, x, y, suffix@),
{
    let mut m: String = prefix.to_owned();
    let xs: String = decimal_string(x as u64);
    let ys: String = decimal_string(y as u64);
    m.append(xs.as_str());
    m.append(", ");
    m.append(ys.as_str());
    m.append(suffix);
    m
}

fn rejection(message: &str) -> (a: LandAction)
    ensures
        a@ == respond(Status::InternalServerError, false, 0, 0, message@),
{
    LandAction::Respond {
        status: Status::InternalServerError,
        response: LandResponse { success: false, x: 0, y: 0, message: message.to_owned() },
    }
}

fn write_square(config: &mut BattleConfig, x: u8, y: u8, sq: (u8, u32))
    requires
        board_shape_ok(old(config)@),
        x < BOARD_SIZE,
        y < BOARD_SIZE,
    ensures
        final(config)@ == set_square(old(config)@, x, y, sq),
{
    let mut row: Vec<(u8, u32)> = Vec::new();
    std::mem::swap(&mut row, &mut config.board[y as usize]);
    assert(row@ == old(config)@[y as int]);
    assert(row@.len() >= BOARD_SIZE);
    row.set(x as usize, sq);
    config.board.set(y as usize, row);
    assert(config@ =~= set_square(old(config)@, x, y, sq));
}

/// One step of a landing, with the payment landing on (`x`, `y`).
pub fn land_at(config: &mut BattleConfig, state: LandState, event: LandEvent, x: u8, y: u8) -> (r: (
    LandState,
    LandAction,
))
    requires
        land_requires(old(config)@, state, event@),
        x < BOARD_SIZE,
        y < BOARD_SIZE,
        deposit_fits_at(old(config)@, state, event@, x, y),
    ensures
        (final(config)@, r.0, r.1@) == land_next(old(config)@, state, event@, x, y),
{
    match event {
        LandEvent::Request { token, color } => {
            proof {
                reveal_strlit("🚬 Close but no cigar.");
                reveal_strlit("Invalid color selected?!");
            }
            let t: &str = token.as_str();
            if t.unicode_len() >= 2 && t.get_char(0) == 'l' && t.get_char(1) == 'n' {
                (LandState::Ready, rejection("🚬 Close but no cigar."))
            } else if color > PLAYER_COLORS || color == 0 {
                (LandState::Ready, rejection("Invalid color selected?!"))
            } else {
                (LandState::AwaitingPayment { color }, LandAction::Receive { token })
            }
        },
        LandEvent::Paid { amount_paid } => {
            let color: u8 = match state {
                LandState::AwaitingPayment { color } => color,
                _ => 0,
            };
            assert(color == landing_color(state));
            if amount_paid == 0 {
                return (LandState::Ready, rejection("⚠️ Key Rejected ⚠️"));
            }
            let (square_color, square_amount): (u8, u32) = config.board[y as usize][x as usize];
            assert(old(config)@[y as int][x as int] == (square_color, square_amount));
            if color == square_color {
                (LandState::AwaitingEcash { x, y }, LandAction::Send { amount: square_amount })
            } else {
                write_square(config, x, y, (color, amount_paid + square_amount));
                let message: String = if square_color != 0 {
                    coords_message("💔 Key Failed. Valid key was (", x, y, ")")
                } else {
                    coords_message("🔒 Key not ready. 🔒 (", x, y, ")")
                };
                (
                    LandState::Ready,
                    LandAction::Respond {
                        status: Status::Accepted,
                        response: LandResponse { success: true, x, y, message },
                    },
                )
            }
        },
        LandEvent::Unlocked { ecash } => {
            let (ux, uy): (u8, u8) = match state {
                LandState::AwaitingEcash { x, y } => (x, y),
                _ => (0, 0),
            };
            write_square(config, ux, uy, (0, 0));
            let mut suffix: String = "). 🎈\nUnlocked:\n\n".to_owned();
            suffix.append(ecash.as_str());
            let message: String = coords_message("🎈 Valid Key (", ux, uy, suffix.as_str());
            (
                LandState::Ready,
                LandAction::Respond {
                    status: Status::Accepted,
                    response: LandResponse { success: true, x: ux, y: uy, message },
                },
            )
        },
    }
}


/// The outside type `rand::rngs::ThreadRng`, carried as an opaque value.
#[verifier::external_type_specification]
#[verifier::external_body]
pub struct ExThreadRng(rand::rngs::ThreadRng);

/// `rand::thread_rng`: the thread's random number generator. Nothing is
/// claimed of it.
#[verifier::external_body]
fn thread_rng() -> rand::rngs::ThreadRng {
    rand::thread_rng()
}

/// `Rng::gen_range` over `0..bound`: claimed to return a value below `bound`,
/// as rand documents for a half-open range; which value is left to chance.
/// An empty range panics, so `bound` must be positive.
#[verifier::external_body]
fn gen_below(rng: &mut rand::rngs::ThreadRng, bound: u8) -> (r: u8)
    requires
        bound > 0,
    ensures
        r < bound,
{
    rng.gen_range(0..bound)
}

/// A random square of the board, as (`x`, `y`).
pub fn very_tustworthy_rng() -> (r: (u8, u8))
    ensures
        r.0 < BOARD_SIZE,
        r.1 < BOARD_SIZE,
{
    let mut rng = thread_rng();
    let x: u8 = gen_below(&mut rng, BOARD_SIZE);
    let y: u8 = gen_below(&mut rng, BOARD_SIZE);
    (x, y)
}

/// One step of a landing. A payment lands on a random square, so the
/// contract says that some square (`x`, `y`) of the board was taken; the
/// answer or the new state names it.
pub fn land(config: &mut BattleConfig, state: LandState, event: LandEvent) -> (r: (
    LandState,
    LandAction,
))
    requires
        land_requires(old(config)@, state, event@),
        forall|x: u8, y: u8|
            x < BOARD_SIZE && y < BOARD_SIZE ==> #[trigger] deposit_fits_at(
                old(config)@,
                state,
                event@,
                x,
                y,
            ),
    ensures
        exists|x: u8, y: u8|
            x < BOARD_SIZE && y < BOARD_SIZE && (final(config)@, r.0, r.1@) == land_next(
                old(config)@,
                state,
                event@,
                x,
                y,
            ),
{
    let (x, y): (u8, u8) = match event {
        LandEvent::Paid { amount_paid } => if amount_paid > 0 {
            very_tustworthy_rng()
        } else {
            (0, 0)
        },
        _ => (0, 0),
    };
    land_at(config, state, event, x, y)
}

/// The colours of the board's squares.
pub open spec fn colors_of(b: BoardView) -> Seq<Seq<u8>> {
    b.map_values(|row: Seq<(u8, u32)>| row.map_values(|sq: (u8, u32)| sq.0))
}

/// The amounts on the board's squares.
pub open spec fn amounts_of(b: BoardView) -> Seq<Seq<u32>> {
    b.map_values(|row: Seq<(u8, u32)>| row.map_values(|sq: (u8, u32)| sq.1))
}

/// What the board answers: the colours and the amounts, each row by row.
#[derive(Debug)]
pub struct BoardResponse {
    pub colors: Vec<Vec<u8>>,
    pub amounts: Vec<Vec<u32>>,
}

impl View for BoardResponse {
    type V = (Seq<Seq<u8>>, Seq<Seq<u32>>);

    open spec fn view(&self) -> (Seq<Seq<u8>>, Seq<Seq<u32>>) {
        (
            self.colors@.map_values(|row: Vec<u8>| row@),
            self.amounts@.map_values(|row: Vec<u32>| row@),
        )
    }
}

/// The current board, split into colours and amounts.
pub fn board(config: &BattleConfig) -> (r: (Status, BoardResponse))
    ensures
        r.0 == Status::Accepted,
        r.1@ == (colors_of(config@), amounts_of(config@)),
{
    let mut colors: Vec<Vec<u8>> = Vec::new();
    let mut amounts: Vec<Vec<u32>> = Vec::new();
    let n: usize = config.board.len();
    let mut i: usize = 0;
    while i < n
        invariant
            i <= n == config.board@.len(),
            colors@.len() == i,
            amounts@.len() == i,
            forall|k: int|
                0 <= k < i ==> (#[trigger] colors@[k])@ == colors_of(config@)[k],
            forall|k: int|
                0 <= k < i ==> (#[trigger] amounts@[k])@ == amounts_of(config@)[k],
        decreases n - i,
    {
        let row: &Vec<(u8, u32)> = &config.board[i];
        let mut row_colors: Vec<u8> = Vec::new();
        let mut row_amounts: Vec<u32> = Vec::new();
        let m: usize = row.len();
        let mut j: usize = 0;
        while j < m
            invariant
                j <= m == row@.len(),
                row@ == config@[i as int],
                row_colors@ == row@.take(j as int).map_values(|sq: (u8, u32)| sq.0),
                row_amounts@ == row@.take(j as int).map_values(|sq: (u8, u32)| sq.1),
            decreases m - j,
        {
            let (c, a): (u8, u32) = row[j];
            row_colors.push(c);
            row_amounts.push(a);
            j = j + 1;
            assert(row_colors@ =~= row@.take(j as int).map_values(|sq: (u8, u32)| sq.0));
            assert(row_amounts@ =~= row@.take(j as int).map_values(|sq: (u8, u32)| sq.1));
        }
        assert(row@.take(m as int) =~= row@);
        colors.push(row_colors);
        amounts.push(row_amounts);
        i = i + 1;
    }
    let r = BoardResponse { colors, amounts };
    assert(r@.0 =~= colors_of(config@));
    assert(r@.1 =~= amounts_of(config@));
    (Status::Accepted, r)
}


/// The sats on a row of the board.
pub open spec fn row_total(r: Seq<(u8, u32)>) -> int
    decreases r.len(),
{
    if r.len() == 0 {
        0
    } else {
        row_total(r.drop_last()) + r.last().1
    }
}

/// The sats held in the vault.
pub open spec fn board_total(b: BoardView) -> int
    decreases b.len(),
{
    if b.len() == 0 {
        0
    } else {
        board_total(b.drop_last()) + row_total(b.last())
    }
}

proof fn lemma_row_total_update(r: Seq<(u8, u32)>, j: int, sq: (u8, u32))
    requires
        0 <= j < r.len(),
    ensures
        row_total(r.update(j, sq)) == row_total(r) - r[j].1 + sq.1,
    decreases r.len(),
{
    if j == r.len() - 1 {
        assert(r.update(j, sq).drop_last() =~= r.drop_last());
    } else {
        lemma_row_total_update(r.drop_last(), j, sq);
        assert(r.update(j, sq).drop_last() =~= r.drop_last().update(j, sq));
    }
}

proof fn lemma_board_total_update(b: BoardView, i: int, row: Seq<(u8, u32)>)
    requires
        0 <= i < b.len(),
    ensures
        board_total(b.update(i, row)) == board_total(b) - row_total(b[i]) + row_total(row),
    decreases b.len(),
{
    if i == b.len() - 1 {
        assert(b.update(i, row).drop_last() =~= b.drop_last());
    } else {
        lemma_board_total_update(b.drop_last(), i, row);
        assert(b.update(i, row).drop_last() =~= b.drop_last().update(i, row));
    }
}

proof fn lemma_set_square_total(b: BoardView, x: u8, y: u8, sq: (u8, u32))
    requires
        board_shape_ok(b),
        x < BOARD_SIZE,
        y < BOARD_SIZE,
    ensures
        board_total(set_square(b, x, y, sq)) == board_total(b) - b[y as int][x as int].1 + sq.1,
{
    assert(b[y as int].len() >= BOARD_SIZE);
    lemma_row_total_update(b[y as int], x as int, sq);
    lemma_board_total_update(b, y as int, b[y as int].update(x as int, sq));
}

/// Every step of a landing keeps the board's shape (the same rows of the
/// same lengths), keeps each square holding a player colour with sats or no
/// colour and no sats, and leaves the game in a consistent state.
pub proof fn lemma_land_keeps_vault_consistent(
    b: BoardView,
    state: LandState,
    event: LandEventView,
    x: u8,
    y: u8,
)
    requires
        land_requires(b, state, event),
        deposit_fits_at(b, state, event, x, y),
        squares_consistent(b),
        x < BOARD_SIZE,
        y < BOARD_SIZE,
    ensures
        same_shape(b, land_next(b, state, event, x, y).0),
        board_shape_ok(land_next(b, state, event, x, y).0),
        squares_consistent(land_next(b, state, event, x, y).0),
        state_ok(land_next(b, state, event, x, y).1),
{
    let (b2, s2, a) = land_next(b, state, event, x, y);
    assert(b[y as int].len() >= BOARD_SIZE);
    match state {
        LandState::AwaitingEcash { x: ux, y: uy } => {
            assert(b[uy as int].len() >= BOARD_SIZE);
        },
        _ => {},
    }
    assert forall|i: int| 0 <= i < b.len() implies (#[trigger] b2[i]).len() == b[i].len() by {}
    assert forall|i: int| 0 <= i < BOARD_SIZE implies (#[trigger] b2[i]).len() >= BOARD_SIZE as nat by {
        assert(b[i].len() >= BOARD_SIZE);
    }
    assert forall|i: int, j: int| 0 <= i < b2.len() && 0 <= j < b2[i].len() implies {
        &&& (#[trigger] b2[i][j]).0 <= PLAYER_COLORS
        &&& (b2[i][j].0 == 0 <==> b2[i][j].1 == 0)
    } by {
        assert(b2[i].len() == b[i].len());
    }
}

/// Turning a landing away (an invoice for a token, a colour that is no
/// player colour, a token that brought nothing) leaves the board as it was
/// and ends the landing.
pub proof fn lemma_land_rejections_leave_board(
    b: BoardView,
    state: LandState,
    event: LandEventView,
    x: u8,
    y: u8,
)
    requires
        land_requires(b, state, event),
        x < BOARD_SIZE,
        y < BOARD_SIZE,
        land_next(b, state, event, x, y).2 matches LandActionView::Respond { response, .. } && !response.success,
    ensures
        land_next(b, state, event, x, y).0 == b,
        land_next(b, state, event, x, y).1 == LandState::Ready,
{
}

/// The vault's sats are accounted for, on any board: a redeemed token that
/// does not unlock its square adds exactly its sats to the vault; one that
/// unlocks its square leaves the vault as it is and asks to pay out exactly
/// what the square holds; paying it out empties that square and takes exactly
/// that amount out of the vault. No other step changes the board.
pub proof fn lemma_land_conserves_sats(
    b: BoardView,
    state: LandState,
    event: LandEventView,
    x: u8,
    y: u8,
)
    requires
        land_requires(b, state, event),
        deposit_fits_at(b, state, event, x, y),
        x < BOARD_SIZE,
        y < BOARD_SIZE,
    ensures
        ({
            let (b2, s2, a) = land_next(b, state, event, x, y);
            match event {
                LandEventView::Request { .. } => b2 == b,
                LandEventView::Paid { amount_paid } => if amount_paid == 0 {
                    b2 == b
                } else if a is Send {
                    &&& b2 == b
                    &&& s2 == LandState::AwaitingEcash { x, y }
                    &&& a == LandActionView::Send { amount: b[y as int][x as int].1 }
                } else {
                    board_total(b2) == board_total(b) + amount_paid
                },
                LandEventView::Unlocked { .. } => match state {
                    LandState::AwaitingEcash { x: ux, y: uy } => {
                        &&& b2 == set_square(b, ux, uy, (0u8, 0u32))
                        &&& board_total(b2) == board_total(b) - b[uy as int][ux as int].1
                    },
                    _ => true,
                },
            }
        }),
{
    assert(b[y as int].len() >= BOARD_SIZE);
    let (b2, s2, a) = land_next(b, state, event, x, y);
    match event {
        LandEventView::Paid { amount_paid } => {
            if amount_paid != 0 {
                let color: u8 = landing_color(state);
                let square = b[y as int][x as int];
                if color != square.0 {
                    lemma_set_square_total(b, x, y, (color, (amount_paid + square.1) as u32));
                }
            }
        },
        LandEventView::Unlocked { .. } => {
            match state {
                LandState::AwaitingEcash { x: ux, y: uy } => {
                    lemma_set_square_total(b, ux, uy, (0u8, 0u32));
                },
                _ => {},
            }
        },
        _ => {},
    }
}

/// On a consistent board, a square that a landing unlocks holds sats: the
/// payout asked for is more than nothing.
pub proof fn lemma_unlocked_square_holds_sats(
    b: BoardView,
    state: LandState,
    event: LandEventView,
    x: u8,
    y: u8,
)
    requires
        land_requires(b, state, event),
        squares_consistent(b),
        x < BOARD_SIZE,
        y < BOARD_SIZE,
        land_next(b, state, event, x, y).2 is Send,
    ensures
        land_next(b, state, event, x, y).2 == (LandActionView::Send { amount: b[y as int][x as int].1 }),
        b[y as int][x as int].1 > 0,
{
    assert(b[y as int].len() >= BOARD_SIZE);
}

/// A payment that brought sats pays a square out exactly when the square
/// holds the landing colour. On a square of another colour it never asks for
/// a payout: the landing is answered as a success at that square, the landing
/// is over, and the square takes the landing colour and the old amount plus
/// the payment, every other square staying as it was. On a square of the
/// landing colour the board stays and exactly the square's sats are asked to
/// be paid out.
pub proof fn lemma_payout_only_on_own_colour(
    b: BoardView,
    state: LandState,
    amount_paid: u32,
    x: u8,
    y: u8,
)
    requires
        land_requires(b, state, LandEventView::Paid { amount_paid }),
        deposit_fits_at(b, state, LandEventView::Paid { amount_paid }, x, y),
        amount_paid > 0,
        x < BOARD_SIZE,
        y < BOARD_SIZE,
    ensures
        ({
            let (b2, s2, a) = land_next(b, state, LandEventView::Paid { amount_paid }, x, y);
            let sq = b[y as int][x as int];
            let color = landing_color(state);
            &&& (a is Send <==> sq.0 == color)
            &&& sq.0 != color ==> {
                &&& s2 == LandState::Ready
                &&& a matches LandActionView::Respond { status, response } && status
                    == Status::Accepted && response.success && response.x == x && response.y == y
                &&& b2.len() == b.len()
                &&& forall|i: int| 0 <= i < b.len() ==> (#[trigger] b2[i]).len() == b[i].len()
                &&& b2[y as int][x as int].0 == color
                &&& b2[y as int][x as int].1 == amount_paid + sq.1
                &&& forall|i: int, j: int|
                    0 <= i < b.len() && 0 <= j < b[i].len() && (i != y || j != x) ==> #[trigger] b2[i][j]
                        == b[i][j]
            }
            &&& sq.0 == color ==> {
                &&& b2 == b
                &&& s2 == LandState::AwaitingEcash { x, y }
                &&& a == LandActionView::Send { amount: sq.1 }
            }
        }),
{
    assert(b[y as int].len() >= BOARD_SIZE);
}

/// One step of a run of landings: the event and the square that a payment
/// lands on.
pub type LandStep = (LandEventView, u8, u8);

/// The board and the state after the steps, one after the other.
pub open spec fn run_landings(b: BoardView, state: LandState, steps: Seq<LandStep>) -> (BoardView, LandState)
    decreases steps.len(),
{
    if steps.len() == 0 {
        (b, state)
    } else {
        let next = land_next(b, state, steps[0].0, steps[0].1, steps[0].2);
        run_landings(next.0, next.1, steps.drop_first())
    }
}

/// Each step of the run meets what `land` requires: the event is the one
/// awaited, the token can be sliced, the square is on the board and a
/// deposit on it fits.
pub open spec fn landings_allowed(b: BoardView, state: LandState, steps: Seq<LandStep>) -> bool
    decreases steps.len(),
{
    if steps.len() == 0 {
        true
    } else {
        let next = land_next(b, state, steps[0].0, steps[0].1, steps[0].2);
        &&& land_requires(b, state, steps[0].0)
        &&& steps[0].1 < BOARD_SIZE
        &&& steps[0].2 < BOARD_SIZE
        &&& deposit_fits_at(b, state, steps[0].0, steps[0].1, steps[0].2)
        &&& landings_allowed(next.0, next.1, steps.drop_first())
    }
}

proof fn lemma_run_keeps_vault(b: BoardView, state: LandState, steps: Seq<LandStep>)
    requires
        board_is_square(b),
        squares_consistent(b),
        state_ok(state),
        landings_allowed(b, state, steps),
    ensures
        board_is_square(run_landings(b, state, steps).0),
        squares_consistent(run_landings(b, state, steps).0),
        state_ok(run_landings(b, state, steps).1),
    decreases steps.len(),
{
    if steps.len() > 0 {
        let (e, x, y) = steps[0];
        lemma_land_keeps_vault_consistent(b, state, e, x, y);
        let next = land_next(b, state, e, x, y);
        assert forall|i: int| 0 <= i < next.0.len() implies (#[trigger] next.0[i]).len() == BOARD_SIZE as nat by {
            assert(next.0[i].len() == b[i].len());
        }
        lemma_run_keeps_vault(next.0, next.1, steps.drop_first());
    }
}

/// The vault invariant over every board that landings can reach: starting
/// from the empty board, after any run of landing steps that each meet what
/// `land` requires, the board is `BOARD_SIZE` rows of `BOARD_SIZE` squares,
/// every square holds a player colour or none, and a square holds sats
/// exactly when it holds a colour; so what `board` answers is `BOARD_SIZE`
/// rows of `BOARD_SIZE` colours and amounts, with every colour at most
/// `PLAYER_COLORS` and a colour of `0` exactly where the amount is `0`.
pub proof fn lemma_reachable_vault_consistent(steps: Seq<LandStep>)
    requires
        landings_allowed(empty_board(), LandState::Ready, steps),
    ensures
        ({
            let b = run_landings(empty_board(), LandState::Ready, steps).0;
            &&& board_is_square(b)
            &&& squares_consistent(b)
            &&& state_ok(run_landings(empty_board(), LandState::Ready, steps).1)
            &&& colors_of(b).len() == BOARD_SIZE
            &&& amounts_of(b).len() == BOARD_SIZE
            &&& forall|i: int, j: int|
                0 <= i < BOARD_SIZE && 0 <= j < BOARD_SIZE ==> {
                    &&& colors_of(b)[i].len() == BOARD_SIZE
                    &&& amounts_of(b)[i].len() == BOARD_SIZE
                    &&& (#[trigger] colors_of(b)[i][j]) <= PLAYER_COLORS
                    &&& (colors_of(b)[i][j] == 0 <==> amounts_of(b)[i][j] == 0)
                }
        }),
{
    let e = empty_board();
    assert(board_is_square(e));
    assert(squares_consistent(e));
    lemma_run_keeps_vault(e, LandState::Ready, steps);
    let b = run_landings(e, LandState::Ready, steps).0;
    assert forall|i: int, j: int| 0 <= i < BOARD_SIZE && 0 <= j < BOARD_SIZE implies {
        &&& colors_of(b)[i].len() == BOARD_SIZE
        &&& amounts_of(b)[i].len() == BOARD_SIZE
        &&& (#[trigger] colors_of(b)[i][j]) <= PLAYER_COLORS
        &&& (colors_of(b)[i][j] == 0 <==> amounts_of(b)[i][j] == 0)
    } by {
        assert(b[i].len() == BOARD_SIZE);
        assert(colors_of(b)[i][j] == b[i][j].0);
        assert(amounts_of(b)[i][j] == b[i][j].1);
    }
}

} // verus!
