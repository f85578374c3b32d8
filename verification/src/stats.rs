use vstd::multiset::*;
use vstd::prelude::*;
use vstd::seq_lib::*;

use crate::game::first_refused;
use crate::game::GameResult;
use crate::game::GiveResult;
use crate::game::ListMoves;
use crate::move_tree::has_move;
use crate::move_tree::narrowed;
use crate::move_tree::narrowed_along;
use crate::move_tree::pointed;
use crate::move_tree::MoveTree;
use crate::moves::Move;
use crate::moves::SANError;
use crate::text::in_order;
use crate::text::sort;
use crate::text::texts;

verus! {

/// How many games ended in each of the three ways.
#[derive(Debug, Clone, Copy, PartialEq, Eq, Structural)]
pub struct Tally {
    pub white_wins: usize,
    pub black_wins: usize,
    pub draws: usize,
}

/// The number of `games` that ended with `result`.
pub open spec fn count_of<G: GiveResult>(games: Seq<&G>, result: GameResult) -> nat
    decreases games.len(),
{
    if games.len() == 0 {
        0
    } else {
        count_of(games.drop_last(), result) + if games.last().outcome() == result {
            1nat
        } else {
            0nat
        }
    }
}

/// No more games ended in one way than there are games.
pub proof fn lemma_count_at_most_len<G: GiveResult>(games: Seq<&G>, result: GameResult)
    ensures
        count_of(games, result) <= games.len(),
    decreases games.len(),
{
    if games.len() > 0 {
        lemma_count_at_most_len(games.drop_last(), result);
    }
}

/// Each game ended in one of the three ways.
pub proof fn lemma_counts_add_up<G: GiveResult>(games: Seq<&G>)
    ensures
        count_of(games, GameResult::WhiteWon) + count_of(games, GameResult::BlackWon) + count_of(
            games,
            GameResult::Draw,
        ) == games.len(),
    decreases games.len(),
{
    if games.len() > 0 {
        lemma_counts_add_up(games.drop_last());
    }
}

/// Counts the white wins, black wins, and draws in `games`.
pub fn tally<G: GiveResult>(games: &Vec<&G>) -> (tally: Tally)
    ensures
        tally.white_wins == count_of(games@, GameResult::WhiteWon),
        tally.black_wins == count_of(games@, GameResult::BlackWon),
        tally.draws == count_of(games@, GameResult::Draw),
        tally.white_wins + tally.black_wins + tally.draws == games@.len(),
{
    let mut white_wins: usize = 0;
    let mut black_wins: usize = 0;
    let mut draws: usize = 0;

    let mut i: usize = 0;
    while i < games.len()
        invariant
            i <= games.len(),
            white_wins == count_of(games@.take(i as int), GameResult::WhiteWon),
            black_wins == count_of(games@.take(i as int), GameResult::BlackWon),
            draws == count_of(games@.take(i as int), GameResult::Draw),
        decreases games.len() - i,
    {
        proof {
            let seen = games@.take(i + 1);
            assert(seen.drop_last() =~= games@.take(i as int));
            lemma_count_at_most_len(seen, GameResult::WhiteWon);
            lemma_count_at_most_len(seen, GameResult::BlackWon);
            lemma_count_at_most_len(seen, GameResult::Draw);
        }
        match games[i].result() {
            GameResult::WhiteWon => {
                white_wins += 1;
            },
            GameResult::BlackWon => {
                black_wins += 1;
            },
            GameResult::Draw => {
                draws += 1;
            },
        };
        i += 1;
    }
    proof {
        assert(games@.take(games.len() as int) =~= games@);
        lemma_counts_add_up(games@);
    }

    Tally { white_wins: white_wins, black_wins: black_wins, draws: draws }
}

/// The number of `games` that ended with `result`, each counted as often as
/// it is there.
pub open spec fn ended_with<G: GiveResult>(games: Multiset<G>, result: GameResult) -> nat {
    games.filter(ending(result)).len()
}

/// Whether a game ended with `result`.
pub open spec fn ending<G: GiveResult>(result: GameResult) -> spec_fn(G) -> bool {
    |game: G| game.outcome() == result
}

/// To count the games of a sequence is to count those of its multiset.
pub proof fn lemma_count_of_multiset<G: GiveResult>(games: Seq<&G>, result: GameResult)
    ensures
        count_of(games, result) == ended_with(pointed(games).to_multiset(), result),
    decreases games.len(),
{
    let wanted = ending::<G>(result);
    if games.len() == 0 {
        pointed(games).to_multiset_ensures();
        lemma_multiset_empty_len(pointed(games).to_multiset());
        assert(pointed(games).to_multiset().filter(wanted) =~= Multiset::<G>::empty());
    } else {
        let before = games.drop_last();
        let last = *games.last();
        lemma_count_of_multiset(before, result);
        assert(pointed(games) =~= pointed(before).push(last));
        to_multiset_build(pointed(before), last);
        let counted = pointed(before).to_multiset();
        if wanted(last) {
            assert(counted.insert(last).filter(wanted) =~= counted.filter(wanted).insert(last));
            lemma_insert_len(counted.filter(wanted), last);
        } else {
            assert(counted.insert(last).filter(wanted) =~= counted.filter(wanted));
        }
    }
}

/// Whether one of `branches` is `notation`.
pub open spec fn has_text(branches: Seq<String>, notation: Seq<char>) -> bool {
    texts(branches).contains(notation)
}

/// What is to be said of the games that went on in one way.
#[derive(Debug)]
pub struct Statistics {
    /// The number of the games.
    pub game_count: usize,
    /// How many of them ended in each way.
    pub tally: Tally,
    /// The moves with which the games went on, each once, in the order of a
    /// dictionary, where they were asked for.
    pub branches: Vec<String>,
}

/// Looks in `move_tree` for the games that began with the moves that `moves`
/// spell, counts them, and how they ended, and lists the moves with which
/// they went on, in the order of a dictionary, if `show_branches` is set. The
/// first of `moves` that is no move is refused.
pub fn run_stats<M: Move, G: ListMoves<M> + GiveResult>(
    move_tree: &MoveTree<M, G>,
    moves: &Vec<String>,
    show_branches: bool,
) -> (stats: Result<Statistics, SANError>)
    requires
        move_tree.wf(),
    ensures
        match stats {
            Ok(stats) => {
                let games = narrowed_along(move_tree.games(), 0, texts(moves@));
                &&& first_refused::<M>(texts(moves@)) == moves@.len()
                &&& stats.game_count == games.len()
                &&& stats.tally.white_wins == ended_with(games, GameResult::WhiteWon)
                &&& stats.tally.black_wins == ended_with(games, GameResult::BlackWon)
                &&& stats.tally.draws == ended_with(games, GameResult::Draw)
                &&& texts(stats.branches@).no_duplicates()
                &&& in_order(texts(stats.branches@))
                &&& forall|notation: Seq<char>| #[trigger]
                    has_text(stats.branches@, notation) <==> show_branches && narrowed(
                        games,
                        moves@.len() as nat,
                        notation,
                    ).len() > 0
            },
            Err(error) => {
                let refused = first_refused::<M>(texts(moves@));
                &&& refused < moves@.len()
                &&& error@ == M::refusal(texts(moves@)[refused])
            },
        },
{
    let move_tree_view = match move_tree.view().with_moves(moves) {
        Ok(move_tree_view) => move_tree_view,
        Err(error) => {
            return Err(error);
        },
    };
    let ghost games = move_tree_view.games();

    let mut listed: Vec<String> = Vec::new();
    if show_branches {
        if let Some(next_moves) = move_tree_view.branches() {
            let mut i: usize = 0;
            while i < next_moves.len()
                invariant
                    i <= next_moves.len(),
                    listed@.len() == i,
                    forall|j: int|
                        0 <= j < i ==> (#[trigger] listed@[j])@ == next_moves@[j].notation(),
                decreases next_moves.len() - i,
            {
                let next_move = next_moves[i].clone();
                proof {
                    M::lemma_clone_keeps_notation(next_moves@[i as int], &next_move);
                }
                listed.push(next_move.to_algebraic());
                i += 1;
            }
            proof {
                assert forall|notation: Seq<char>| #[trigger]
                    has_text(listed@, notation) <==> narrowed(
                        games,
                        moves@.len() as nat,
                        notation,
                    ).len() > 0 by {
                    if has_text(listed@, notation) {
                        let at = choose|i: int|
                            0 <= i < listed@.len() && texts(listed@)[i] == notation;
                        assert(next_moves@[at].notation() == notation);
                    }
                    if has_move(next_moves@, notation) {
                        let at = choose|i: int|
                            0 <= i < next_moves@.len() && (#[trigger] next_moves@[i]).notation()
                                == notation;
                        assert(texts(listed@)[at] == notation);
                    }
                }
                assert forall|i: int, j: int|
                    0 <= i < listed@.len() && 0 <= j < listed@.len() && i != j implies texts(
                    listed@,
                )[i] != texts(listed@)[j] by {
                    assert(next_moves@[i].notation() == texts(listed@)[i]);
                    assert(next_moves@[j].notation() == texts(listed@)[j]);
                }
            }
        } else {
            proof {
                move_tree_view.lemma_absent_shows_nothing();
                assert forall|notation: Seq<char>|
                    narrowed(games, moves@.len() as nat, notation).len() == 0 by {
                    assert(narrowed(games, moves@.len() as nat, notation) =~= Multiset::<
                        G,
                    >::empty());
                }
            }
        }
    }
    let ghost unordered = texts(listed@);
    let branches = sort(listed);
    proof {
        // The moves are the same in any order, each once.
        unordered.to_multiset_ensures();
        texts(branches@).to_multiset_ensures();
        unordered.lemma_multiset_has_no_duplicates();
        texts(branches@).lemma_multiset_has_no_duplicates_conv();
        assert forall|notation: Seq<char>| #[trigger]
            has_text(branches@, notation) <==> has_text(listed@, notation) by {
            assert(texts(branches@).to_multiset().count(notation) == unordered.to_multiset().count(
                notation,
            ));
        }
    }
    let filtered_games = move_tree_view.iter().collect();
    let game_count = filtered_games.len();
    proof {
        pointed(filtered_games@).to_multiset_ensures();
        lemma_count_of_multiset(filtered_games@, GameResult::WhiteWon);
        lemma_count_of_multiset(filtered_games@, GameResult::BlackWon);
        lemma_count_of_multiset(filtered_games@, GameResult::Draw);
    }

    Ok(Statistics { game_count: game_count, tally: tally(&filtered_games), branches: branches })
}

} // verus!
