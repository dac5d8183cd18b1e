pub mod belief;
pub mod cards;
pub mod game;
pub mod grouping;
pub mod melds;
pub mod passing;
pub mod planner;
pub mod play;
pub mod precedence;
pub mod round;
pub mod rules;
pub mod shuffle;
pub mod solver;

pub use belief::{PlayerState, State};
pub use cards::{deck, each_player, partner, Card, Player, Rank, Suit};
pub use game::{dealt, shuffled, Game, GameInfo};
pub use melds::bonus_points;
pub use passing::take_indices;
pub use planner::Bot;
pub use play::{Error, PlayingPhase, Trick};
pub use precedence::compare;
pub use round::{Action, Phase, RoundState};
pub use rules::is_legal_play;
