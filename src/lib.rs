//! The simulation core of a snake game on a square board whose edges wrap
//! around: the board geometry, the snake, and the world that runs one tick
//! at a time.

mod board;
mod snake;
mod entropy;
mod world;

pub use board::{Direction, opposite, next_head, free_cells, reward_choice, lemma_next_head_on_board,
    lemma_steps_undo, lemma_free_cells_sound, lemma_free_cells_count, lemma_reward_choice_is_free,
    lemma_side_within_area};
pub use snake::{turn_baseline, accepts_turn, turned, shifted, grown_body, moved_body, collides,
    on_board, turned_all, lemma_turns_never_reverse, lemma_second_turn_judged_by_baseline};
pub use entropy::{EntropyError, be_u64, pow256, draw_from_bytes};
pub use world::{GameStatus, World, WorldView, lemma_tick_ends_game};
