use vstd::multiset::*;
use vstd::prelude::*;

use crate::game::notations;
use crate::game::ListMoves;
use crate::move_tree::follows;
use crate::move_tree::lemma_narrowed_along_nothing;
use crate::move_tree::lemma_narrowed_along_one_more;
use crate::move_tree::narrowed;
use crate::move_tree::narrowed_along;
use crate::move_tree::pointed;
use crate::move_tree::Iter;
use crate::move_tree::MoveTree;
use crate::move_tree::MoveTreeView;
use crate::moves::Move;

verus! {

/// A text that is accepted as a move comes back unchanged: whatever move
/// `from_algebraic` makes of `text`, `to_algebraic` makes `text` of it.
pub proof fn lemma_round_trip<M: Move>(text: String, chess_move: M, back: String)
    requires
        M::accepts(text@),
        call_ensures(M::from_algebraic, (text,), chess_move),
        call_ensures(M::to_algebraic, (chess_move,), back),
    ensures
        back@ == text@,
{
}

/// The same for the constructor that may fail: where it hands out a
/// move, the text was accepted and comes back unchanged.
pub proof fn lemma_round_trip_checked<M: Move>(text: String, chess_move: M, back: String)
    requires
        call_ensures(M::try_from_algebraic, (text,), Ok(chess_move)),
        call_ensures(M::to_algebraic, (chess_move,), back),
    ensures
        M::accepts(text@),
        back@ == text@,
{
}

/// A traversal of the view of a whole tree hands out the games of which the
/// tree was made, each as often as it was given.
pub proof fn lemma_containment<'a, M: Move, G: ListMoves<M>>(
    games: Vec<G>,
    tree: MoveTree<M, G>,
    view: MoveTreeView<'a, M, G>,
    iter: Iter<'a, M, G>,
    found: Vec<&'a G>,
)
    requires
        call_ensures(MoveTree::<M, G>::new, (games,), tree),
        call_ensures(MoveTree::<M, G>::view, (&tree,), view),
        call_ensures(MoveTreeView::<M, G>::iter, (&view,), iter),
        call_ensures(Iter::<M, G>::collect, (iter,), found),
    ensures
        pointed(found@).to_multiset() == games@.to_multiset(),
{
}

/// In which order the games are given does not change what the tree shows.
pub proof fn lemma_order_does_not_matter<M: Move, G: ListMoves<M>>(
    games: Vec<G>,
    tree: MoveTree<M, G>,
    shuffled: Vec<G>,
    other_tree: MoveTree<M, G>,
)
    requires
        games@.to_multiset() == shuffled@.to_multiset(),
        call_ensures(MoveTree::<M, G>::new, (games,), tree),
        call_ensures(MoveTree::<M, G>::new, (shuffled,), other_tree),
    ensures
        tree.games() == other_tree.games(),
{
}

/// The view after one move shows those games of the tree whose first move it
/// is, and only those.
pub proof fn lemma_first_move_selects<'a, M: Move, G: ListMoves<M>>(
    games: Vec<G>,
    tree: MoveTree<M, G>,
    chess_move: M,
    next: MoveTreeView<'a, M, G>,
)
    requires
        call_ensures(MoveTree::<M, G>::new, (games,), tree),
        call_ensures(MoveTree::<M, G>::with_next, (&tree, &chess_move), next),
    ensures
        next.depth() == 1,
        next.games() == games@.to_multiset().filter(
            |game: G| game.line().len() > 0 && game.line()[0] == chess_move.notation(),
        ),
{
}

/// Moves that are followed one after the other narrow a view to the games
/// that went on with all of them, in that order: where each of `views` but
/// the first is what `with_next` makes of the one before and the move at its
/// place in `moves`, the last view shows those games of the first that went
/// on with `moves`.
pub proof fn lemma_prefix_selects<'a, M: Move, G: ListMoves<M>>(
    views: Seq<MoveTreeView<'a, M, G>>,
    moves: Seq<M>,
)
    requires
        views.len() == moves.len() + 1,
        views[0].wf(),
        forall|i: int|
            0 <= i < moves.len() ==> call_ensures(
                MoveTreeView::<M, G>::with_next,
                (#[trigger] views[i], &moves[i]),
                views[i + 1],
            ),
    ensures
        views.last().wf(),
        views.last().depth() == views[0].depth() + moves.len(),
        views.last().games() == narrowed_along(
            views[0].games(),
            views[0].depth(),
            notations(moves),
        ),
    decreases moves.len(),
{
    let depth = views[0].depth();
    if moves.len() == 0 {
        lemma_narrowed_along_nothing::<M, G>(views[0].games(), depth);
    } else {
        let before = views.drop_last();
        let shorter = moves.drop_last();
        let last = moves.len() - 1;
        lemma_prefix_selects(before, shorter);
        lemma_narrowed_along_one_more::<M, G>(
            views[0].games(),
            depth,
            notations(shorter),
            moves[last].notation(),
        );
        assert(notations(moves) =~= notations(shorter).push(moves[last].notation()));
    }
}

/// Where none of the games of a view went on with a move, the view after
/// that move is not present, and a traversal of it hands out nothing.
pub proof fn lemma_absence<'a, M: Move, G: ListMoves<M>>(
    view: MoveTreeView<'a, M, G>,
    chess_move: M,
    next: MoveTreeView<'a, M, G>,
    iter: Iter<'a, M, G>,
    found: Vec<&'a G>,
)
    requires
        view.wf(),
        forall|game: G|
            view.games().contains(game) ==> !follows(
                #[trigger] game.line(),
                view.depth(),
                chess_move.notation(),
            ),
        call_ensures(MoveTreeView::<M, G>::with_next, (view, &chess_move), next),
        call_ensures(MoveTreeView::<M, G>::iter, (&next,), iter),
        call_ensures(Iter::<M, G>::collect, (iter,), found),
    ensures
        !next.present(),
        iter.remaining() == Multiset::<G>::empty(),
        found@.len() == 0,
{
    assert(next.games() =~= Multiset::<G>::empty());
    pointed(found@).to_multiset_ensures();
}

/// No move leads from a view that is not present to one that is.
pub proof fn lemma_absence_stays<'a, M: Move, G: ListMoves<M>>(
    view: MoveTreeView<'a, M, G>,
    chess_move: M,
    next: MoveTreeView<'a, M, G>,
)
    requires
        view.wf(),
        !view.present(),
        call_ensures(MoveTreeView::<M, G>::with_next, (view, &chess_move), next),
    ensures
        !next.present(),
        next.games() == Multiset::<G>::empty(),
{
    view.lemma_absent_shows_nothing();
    assert(narrowed(view.games(), view.depth(), chess_move.notation()) =~= Multiset::<G>::empty());
}

/// A tree of games without moves shows them all in the view of the whole
/// tree, and none in the view after any move.
pub proof fn lemma_games_without_moves<'a, M: Move, G: ListMoves<M>>(
    games: Vec<G>,
    tree: MoveTree<M, G>,
    view: MoveTreeView<'a, M, G>,
    chess_move: M,
    next: MoveTreeView<'a, M, G>,
)
    requires
        forall|i: int| 0 <= i < games@.len() ==> (#[trigger] games@[i]).line().len() == 0,
        call_ensures(MoveTree::<M, G>::new, (games,), tree),
        call_ensures(MoveTree::<M, G>::view, (&tree,), view),
        call_ensures(MoveTreeView::<M, G>::with_next, (view, &chess_move), next),
    ensures
        view.present(),
        view.games() == games@.to_multiset(),
        !next.present(),
        next.games() == Multiset::<G>::empty(),
{
    games@.to_multiset_ensures();
    assert(next.games() =~= Multiset::<G>::empty());
}

/// Two traversals of one view hand out the same games, each as often in
/// the one as in the other.
pub proof fn lemma_traversal_repeats<'a, M: Move, G: ListMoves<M>>(
    view: MoveTreeView<'a, M, G>,
    first: Iter<'a, M, G>,
    first_found: Vec<&'a G>,
    second: Iter<'a, M, G>,
    second_found: Vec<&'a G>,
)
    requires
        call_ensures(MoveTreeView::<M, G>::iter, (&view,), first),
        call_ensures(Iter::<M, G>::collect, (first,), first_found),
        call_ensures(MoveTreeView::<M, G>::iter, (&view,), second),
        call_ensures(Iter::<M, G>::collect, (second,), second_found),
    ensures
        first.remaining() == second.remaining(),
        pointed(first_found@).to_multiset() == pointed(second_found@).to_multiset(),
{
}

} // verus!
