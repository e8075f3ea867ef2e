//! One game session: a board, a cursor, a timer and the game's status.

use std::time::Instant;
use vstd::prelude::*;
use crate::board::{Board, CellState};
use crate::clock::now;
use crate::difficulty::Difficulty;
use crate::model::{BoardView, Coord};

verus! {

/// High-level commands the UI can react to after handling an action.
#[derive(Debug, Clone, Copy, PartialEq, Eq, Structural)]
pub enum Command {
    /// Nothing significant changed; a redraw is optional.
    Nothing,
    /// The board changed; request a redraw.
    Redraw,
    /// The player won; end the game and show win UI.
    GameWon,
    /// The player lost; end the game and show lose UI.
    GameLost,
}

/// Runtime game status.
#[derive(Debug, Clone, Copy, PartialEq, Eq, Structural)]
pub enum Status {
    Playing,
    Win,
    Lose,
}

/// Logical cursor within the board grid.
#[derive(Debug, Clone, Copy, PartialEq, Eq, Structural)]
pub struct Cursor {
    pub x: usize,
    pub y: usize,
}

impl Cursor {
    /// A cursor at (x, y).
    pub fn new(x: usize, y: usize) -> (c: Cursor)
        ensures
            c.x == x,
            c.y == y,
    {
        Cursor { x, y }
    }
}

/// Player input intents. The higher-level input layer should map keys/mouse to these.
#[derive(Debug, Clone, Copy, PartialEq, Eq, Structural)]
pub enum Action {
    MoveLeft,
    MoveRight,
    MoveUp,
    MoveDown,
    Reveal,
    ToggleFlag,
    Chord,
    Restart,
    SetDifficulty(Difficulty),
}

/// AppState encapsulates a single game session.
pub struct AppState {
    pub board: Board,
    pub cursor: Cursor,
    pub difficulty: Difficulty,
    pub first_click_done: bool,
    pub start_time: Option<Instant>,
    pub flags_placed: usize,
    pub status: Status,
}

/// The abstract state of a session.
#[verifier::ext_equal]
pub struct SessionView {
    /// The board.
    pub board: BoardView,
    /// The cell under the cursor.
    pub cursor: Coord,
    /// The preset the board was built from.
    pub difficulty: Difficulty,
    /// Whether the timer runs: whether a reveal or chord was tried in this game.
    pub timer_started: bool,
    /// The session's own count of flags.
    pub flags_placed: int,
    /// Whether the game goes on, is won or is lost.
    pub status: Status,
}

/// The status after a reveal or a chord: lost if it was not safe, won if it
/// was and the board is won, else the game goes on.
pub open spec fn status_after(safe: bool, won: bool) -> Status {
    if !safe {
        Status::Lose
    } else if won {
        Status::Win
    } else {
        Status::Playing
    }
}

/// The command that reports a status reached by a reveal or a chord.
pub open spec fn command_for(status: Status) -> Command {
    match status {
        Status::Lose => Command::GameLost,
        Status::Win => Command::GameWon,
        Status::Playing => Command::Redraw,
    }
}

impl SessionView {
    /// A session as it starts: a fresh board of the preset, the cursor in the
    /// upper left corner, the timer stopped, no flags, the game going on.
    pub open spec fn fresh(difficulty: Difficulty) -> SessionView {
        SessionView {
            board: BoardView::fresh(
                difficulty.spec_parameters().0 as int,
                difficulty.spec_parameters().1 as int,
                difficulty.spec_parameters().2 as int,
            ),
            cursor: (0, 0),
            difficulty,
            timer_started: false,
            flags_placed: 0,
            status: Status::Playing,
        }
    }

    /// The invariants of a session: the board is in order and built from the
    /// preset; the cursor is on the grid; the flag count is the number of
    /// flagged cells; and the status is latched as the board tells: a game that
    /// goes on is not won, and a game that is won has a won board.
    pub open spec fn wf(self) -> bool {
        &&& self.board.wf()
        &&& self.board.width == self.difficulty.spec_parameters().0
        &&& self.board.height == self.difficulty.spec_parameters().1
        &&& self.board.mines == self.difficulty.spec_parameters().2
        &&& self.board.contains(self.cursor)
        &&& self.flags_placed == self.board.flagged().len()
        &&& self.status is Playing ==> !self.board.is_win()
        &&& self.status is Win ==> self.board.is_win()
    }

    /// The session after a cursor move by `(dx, dy)`: the cursor moves if that
    /// keeps it on the grid, and a redraw is asked for; else nothing changes.
    pub open spec fn moves(self, dx: int, dy: int, next: SessionView, cmd: Command) -> bool {
        if self.board.in_bounds(self.cursor.0 + dx, self.cursor.1 + dy) {
            next == (SessionView { cursor: (self.cursor.0 + dx, self.cursor.1 + dy), ..self })
                && cmd == Command::Redraw
        } else {
            next == self && cmd == Command::Nothing
        }
    }

    /// Whether `next` and `cmd` are a possible outcome of a reveal at the
    /// cursor: the timer runs, the board is a possible outcome of the reveal
    /// (see [`BoardView::reveal_result`]), and status and command report it.
    pub open spec fn reveals(self, next: SessionView, cmd: Command) -> bool {
        &&& self.board.reveal_result(
            self.cursor.0,
            self.cursor.1,
            next.board,
            cmd != Command::GameLost,
        )
        &&& next.status == status_after(cmd != Command::GameLost, next.board.is_win())
        &&& cmd == command_for(next.status)
        &&& next == (SessionView {
            board: next.board,
            status: next.status,
            timer_started: true,
            ..self
        })
    }

    /// The session after a chord at the cursor: the timer runs, the board is
    /// chorded, and status and command report the outcome.
    pub open spec fn chords(self, next: SessionView, cmd: Command) -> bool {
        let safe = self.board.chord_safe(self.cursor.0, self.cursor.1);
        let board = self.board.chord(self.cursor.0, self.cursor.1);
        &&& next == (SessionView {
            board,
            status: status_after(safe, board.is_win()),
            timer_started: true,
            ..self
        })
        &&& cmd == command_for(next.status)
    }

    /// The session after a flag toggle at the cursor: the flag is toggled, the
    /// count of flags follows, and a redraw is asked for.
    pub open spec fn toggles(self, next: SessionView, cmd: Command) -> bool {
        let board = self.board.toggle_flag(self.cursor.0, self.cursor.1);
        &&& next == (SessionView { board, flags_placed: board.flagged().len() as int, ..self })
        &&& cmd == Command::Redraw
    }

    /// Whether `next` and `cmd` are a possible outcome of `action`.
    ///
    /// A restart and a change of difficulty always start a fresh session. Once
    /// the game is won or lost nothing else is accepted. While it goes on, the
    /// cursor moves, and reveal, flag toggle and chord act on the cell under
    /// the cursor.
    pub open spec fn handles(self, action: Action, next: SessionView, cmd: Command) -> bool {
        match action {
            Action::Restart => next == Self::fresh(self.difficulty) && cmd == Command::Redraw,
            Action::SetDifficulty(d) => next == Self::fresh(d) && cmd == Command::Redraw,
            _ => if !(self.status is Playing) {
                next == self && cmd == Command::Nothing
            } else {
                match action {
                    Action::MoveLeft => self.moves(-1, 0, next, cmd),
                    Action::MoveRight => self.moves(1, 0, next, cmd),
                    Action::MoveUp => self.moves(0, -1, next, cmd),
                    Action::MoveDown => self.moves(0, 1, next, cmd),
                    Action::Reveal => self.reveals(next, cmd),
                    Action::ToggleFlag => self.toggles(next, cmd),
                    _ => self.chords(next, cmd),
                }
            },
        }
    }
}

impl View for AppState {
    type V = SessionView;

    open spec fn view(&self) -> SessionView {
        SessionView {
            board: self.board@,
            cursor: (self.cursor.x as int, self.cursor.y as int),
            difficulty: self.difficulty,
            timer_started: self.first_click_done,
            flags_placed: self.flags_placed as int,
            status: self.status,
        }
    }
}

impl AppState {
    /// The session's invariant: the board's own, those of
    /// [`SessionView::wf`], and a start time exactly if the timer runs.
    pub open spec fn wf(&self) -> bool {
        &&& self.board.wf()
        &&& self@.wf()
        &&& self.first_click_done <==> self.start_time is Some
    }

    /// A new session on a fresh board of the given difficulty.
    pub fn new(difficulty: Difficulty) -> (s: AppState)
        ensures
            s.wf(),
            s@ == SessionView::fresh(difficulty),
    {
        let (w, h, m) = difficulty.parameters();
        proof {
            difficulty.lemma_parameters_valid();
            BoardView::lemma_fresh(w as int, h as int, m as int);
        }
        let board = Board::new(w, h, m);
        AppState {
            board,
            cursor: Cursor::new(0, 0),
            difficulty,
            first_click_done: false,
            start_time: None,
            flags_placed: 0,
            status: Status::Playing,
        }
    }

    /// Reset the current game while keeping the current difficulty.
    pub fn restart(&mut self)
        ensures
            final(self).wf(),
            final(self)@ == SessionView::fresh(old(self).difficulty),
    {
        let (w, h, m) = self.difficulty.parameters();
        proof {
            self.difficulty.lemma_parameters_valid();
            BoardView::lemma_fresh(w as int, h as int, m as int);
        }
        self.board = Board::new(w, h, m);
        self.cursor = Cursor::new(0, 0);
        self.first_click_done = false;
        self.start_time = None;
        self.flags_placed = 0;
        self.status = Status::Playing;
    }

    /// Handle a high-level action and return a command the UI can respond to.
    ///
    /// What the session is afterwards, and which command comes back, is stated
    /// by [`SessionView::handles`]. The start time is set when the timer starts
    /// and kept until the next fresh session.
    pub fn handle_action(&mut self, action: Action) -> (cmd: Command)
        requires
            old(self).wf(),
        ensures
            final(self).wf(),
            old(self)@.handles(action, final(self)@, cmd),
            old(self).first_click_done && !(action is Restart) && !(action is SetDifficulty)
                ==> final(self).start_time == old(self).start_time,
    {
        // If game is over, only allow restart or difficulty change.
        match self.status {
            Status::Playing => {},
            _ => {
                return match action {
                    Action::Restart => {
                        self.restart();
                        Command::Redraw
                    },
                    Action::SetDifficulty(d) => {
                        self.difficulty = d;
                        self.restart();
                        Command::Redraw
                    },
                    _ => Command::Nothing,
                };
            },
        }
        match action {
            Action::MoveLeft => self.try_move(-1, 0),
            Action::MoveRight => self.try_move(1, 0),
            Action::MoveUp => self.try_move(0, -1),
            Action::MoveDown => self.try_move(0, 1),
            Action::Reveal => self.reveal_at_cursor(),
            Action::ToggleFlag => {
                proof {
                    self.difficulty.lemma_parameters_valid();
                    self.board.lemma_view_wf();
                    self.board@.lemma_toggle_flag_flagged(
                        self.cursor.x as int,
                        self.cursor.y as int,
                    );
                    self.board@.lemma_toggle_flag_wf(self.cursor.x as int, self.cursor.y as int);
                    self.board@.lemma_flagged_finite();
                    self.board@.toggle_flag(
                        self.cursor.x as int,
                        self.cursor.y as int,
                    ).lemma_flagged_finite();
                }
                // Adjust flags_placed based on current cell state before toggle
                match self.board.cell_at(self.cursor.x, self.cursor.y) {
                    CellState::Hidden => {
                        // Will become Flagged
                        self.flags_placed = self.flags_placed.saturating_add(1);
                    },
                    CellState::Flagged => {
                        // Will become Hidden
                        self.flags_placed = self.flags_placed.saturating_sub(1);
                    },
                    CellState::Revealed(_) => {},
                }
                self.board.toggle_flag(self.cursor.x, self.cursor.y);
                Command::Redraw
            },
            Action::Chord => self.chord_at_cursor(),
            Action::Restart => {
                self.restart();
                Command::Redraw
            },
            Action::SetDifficulty(d) => {
                self.difficulty = d;
                self.restart();
                Command::Redraw
            },
        }
    }

    /// Move the cursor by (dx, dy) if that keeps it on the grid.
    fn try_move(&mut self, dx: isize, dy: isize) -> (cmd: Command)
        requires
            old(self).wf(),
            -1 <= dx <= 1,
            -1 <= dy <= 1,
        ensures
            final(self).wf(),
            old(self)@.moves(dx as int, dy as int, final(self)@, cmd),
            final(self).start_time == old(self).start_time,
    {
        let nx = self.cursor.x as isize + dx;
        let ny = self.cursor.y as isize + dy;
        if self.board.in_bounds(nx, ny) {
            self.cursor.x = nx as usize;
            self.cursor.y = ny as usize;
            Command::Redraw
        } else {
            Command::Nothing
        }
    }

    /// Start the timer unless it runs already.
    fn ensure_timer_started(&mut self)
        requires
            old(self).wf(),
        ensures
            final(self).wf(),
            final(self)@ == (SessionView { timer_started: true, ..old(self)@ }),
            old(self).first_click_done ==> final(self).start_time == old(self).start_time,
    {
        if !self.first_click_done {
            self.first_click_done = true;
            self.start_time = Some(now());
        }
    }

    /// Reveal the cell under the cursor and latch the outcome.
    fn reveal_at_cursor(&mut self) -> (cmd: Command)
        requires
            old(self).wf(),
            old(self).status is Playing,
        ensures
            final(self).wf(),
            old(self)@.reveals(final(self)@, cmd),
            old(self).first_click_done ==> final(self).start_time == old(self).start_time,
    {
        self.ensure_timer_started();
        let ghost before = self.board@;
        let safe = self.board.reveal_cell(self.cursor.x, self.cursor.y);
        proof {
            self.board.lemma_view_wf();
            let ready = before.ready(self.board@.mined);
            ready.lemma_opened_by_reveal(self.cursor.x as int, self.cursor.y as int);
            assert(ready.flagged() =~= before.flagged());
            if ready.wf() {
                ready.lemma_uncover_keeps(
                    ready.opened_by_reveal(self.cursor.x as int, self.cursor.y as int),
                );
            }
        }
        if !safe {
            self.status = Status::Lose;
            return Command::GameLost;
        }
        if self.board.is_win() {
            self.status = Status::Win;
            return Command::GameWon;
        }
        Command::Redraw
    }

    /// Chord the cell under the cursor and latch the outcome.
    fn chord_at_cursor(&mut self) -> (cmd: Command)
        requires
            old(self).wf(),
            old(self).status is Playing,
        ensures
            final(self).wf(),
            old(self)@.chords(final(self)@, cmd),
            old(self).first_click_done ==> final(self).start_time == old(self).start_time,
    {
        self.ensure_timer_started();
        let ghost before = self.board@;
        let safe = self.board.chord(self.cursor.x, self.cursor.y);
        proof {
            self.board.lemma_view_wf();
            before.lemma_opened_from(
                before.neighbors(self.cursor.x as int, self.cursor.y as int),
            );
            before.lemma_uncover_keeps(
                before.opened_from(before.neighbors(self.cursor.x as int, self.cursor.y as int)),
            );
        }
        if !safe {
            self.status = Status::Lose;
            return Command::GameLost;
        }
        if self.board.is_win() {
            self.status = Status::Win;
            return Command::GameWon;
        }
        Command::Redraw
    }
}

} // verus!
