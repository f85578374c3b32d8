use vstd::multiset::*;
use vstd::prelude::*;
use vstd::seq_lib::*;
use vstd::std_specs::cmp::PartialEqSpec;

use crate::game::first_refused;
use crate::game::lemma_first_refused_from;
use crate::game::notations;
use crate::game::ListMoves;
use crate::moves::Move;
use crate::moves::SANError;
use crate::text::texts;

verus! {

/// Whether a game with the moves `line` went on with `notation` after its
/// first `depth` moves.
pub open spec fn follows(line: Seq<Seq<char>>, depth: nat, notation: Seq<char>) -> bool {
    line.len() > depth && line[depth as int] == notation
}

/// Those of `games` that went on with `notation` after their first `depth`
/// moves.
pub open spec fn narrowed<M: Move, G: ListMoves<M>>(
    games: Multiset<G>,
    depth: nat,
    notation: Seq<char>,
) -> Multiset<G> {
    games.filter(|game: G| follows(game.line(), depth, notation))
}

/// Whether a game with the moves `line` went on with the moves of `prefix`
/// after its first `depth` moves.
pub open spec fn continues(line: Seq<Seq<char>>, depth: nat, prefix: Seq<Seq<char>>) -> bool {
    forall|k: int| 0 <= k < prefix.len() ==> follows(line, (depth + k) as nat, #[trigger] prefix[k])
}

/// Those of `games` that went on with the moves of `prefix` after their
/// first `depth` moves.
pub open spec fn narrowed_along<M: Move, G: ListMoves<M>>(
    games: Multiset<G>,
    depth: nat,
    prefix: Seq<Seq<char>>,
) -> Multiset<G> {
    games.filter(|game: G| continues(game.line(), depth, prefix))
}

/// Every game went on with no moves.
pub proof fn lemma_narrowed_along_nothing<M: Move, G: ListMoves<M>>(
    games: Multiset<G>,
    depth: nat,
)
    ensures
        narrowed_along(games, depth, Seq::empty()) == games,
{
}

/// To narrow by the moves of `prefix` and then by one move more is to
/// narrow by `prefix` with that move at its end.
pub proof fn lemma_narrowed_along_one_more<M: Move, G: ListMoves<M>>(
    games: Multiset<G>,
    depth: nat,
    prefix: Seq<Seq<char>>,
    notation: Seq<char>,
)
    ensures
        narrowed(narrowed_along(games, depth, prefix), depth + prefix.len(), notation)
            == narrowed_along(games, depth, prefix.push(notation)),
{
    let longer = prefix.push(notation);
    assert forall|game: G|
        narrowed(narrowed_along(games, depth, prefix), depth + prefix.len(), notation).count(game)
            == narrowed_along(games, depth, longer).count(game) by {
        let line = game.line();
        if continues(line, depth, longer) {
            assert forall|k: int| 0 <= k < prefix.len() implies follows(
                line,
                (depth + k) as nat,
                #[trigger] prefix[k],
            ) by {
                assert(longer[k] == prefix[k]);
            }
            assert(longer[prefix.len() as int] == notation);
        }
    }
}

/// Whether one of `moves` has the notation `notation`.
pub open spec fn has_move<M: Move>(moves: Seq<&M>, notation: Seq<char>) -> bool {
    exists|i: int| 0 <= i < moves.len() && (#[trigger] moves[i]).notation() == notation
}

/// Whether no two of `moves` have the same notation.
pub open spec fn no_move_twice<M: Move>(moves: Seq<&M>) -> bool {
    forall|i: int, j: int|
        0 <= i < j < moves.len() ==> (#[trigger] moves[i]).notation() != (
        #[trigger] moves[j]).notation()
}

/// A data structure for storing games by moves played. Useful for creating opening explorers.
///
/// # Examples
///
/// ```
/// use chesshound::game::GameMoves;
/// use chesshound::AlgebraicMove;
/// use chesshound::Move;
/// use chesshound::MoveTree;
///
/// let e4 = || AlgebraicMove::from_algebraic(String::from("e4"));
/// let e5 = || AlgebraicMove::from_algebraic(String::from("e5"));
/// let c5 = || AlgebraicMove::from_algebraic(String::from("c5"));
/// let nf3 = || AlgebraicMove::from_algebraic(String::from("Nf3"));
///
/// let game_1 = GameMoves::new(vec![e4(), e5()]);
/// let game_2 = GameMoves::new(vec![e4(), c5()]);
/// let game_3 = GameMoves::new(vec![e4(), c5(), nf3()]);
///
/// let move_tree = MoveTree::new(vec![game_1, game_2, game_3]);
///
/// // Contains game_2 and game_3
/// let sicilian_games = move_tree.with_next(&e4()).with_next(&c5());
/// assert_eq!(sicilian_games.iter().collect().len(), 2);
/// ```
pub struct MoveTree<M: Move, G: ListMoves<M>> {
    /// The games that end here.
    games: Vec<G>,
    /// The branches, each with the move that leads to it. No move leads to
    /// two of them. A branch is looked for by comparing its move with the one
    /// asked for, one branch after the other: what is found then rests on
    /// `==` of moves alone, and on nothing about how moves hash.
    game_tree: Vec<(M, MoveTree<M, G>)>,
}

impl<M: Move, G: ListMoves<M>> MoveTree<M, G> {
    /// The games filed under the branches from `from` on.
    spec fn games_from(&self, from: nat) -> Multiset<G>
        decreases self, 0nat, self.game_tree.len() - from,
    {
        if from >= self.game_tree.len() {
            Multiset::empty()
        } else {
            self.game_tree[from as int].1.all_games().add(self.games_from(from + 1))
        }
    }

    /// All games of the tree: those that end here, and those of the branches.
    spec fn all_games(&self) -> Multiset<G>
        decreases self, 1nat, 0nat,
    {
        self.games@.to_multiset().add(self.games_from(0))
    }

    /// The steps that a traversal of the branches from `from` on still takes.
    spec fn visits_from(&self, from: nat) -> nat
        decreases self, self.game_tree.len() - from,
    {
        if from >= self.game_tree.len() {
            0
        } else {
            2 + self.game_tree[from as int].1.visits_from(0) + self.visits_from(from + 1)
        }
    }

    /// The tree is the part that `depth` moves lead to: the games that are
    /// filed here have `depth` moves, no two branches go on with the same
    /// move, and each branch holds at least one game, all of them games that
    /// went on with the move of the branch.
    spec fn wf_at(&self, depth: nat) -> bool
        decreases self,
    {
        &&& forall|i: int|
            0 <= i < self.games.len() ==> (#[trigger] self.games[i]).line().len() == depth
        &&& forall|i: int, j: int|
            0 <= i < j < self.game_tree.len() ==> (#[trigger] self.game_tree[i]).0.notation() != (
            #[trigger] self.game_tree[j]).0.notation()
        &&& forall|i: int|
            0 <= i < self.game_tree.len() ==> {
                &&& (#[trigger] self.game_tree[i]).1.wf_at(depth + 1)
                &&& self.game_tree[i].1.all_games().len() > 0
                &&& forall|game: G| #[trigger]
                    self.game_tree[i].1.all_games().contains(game) ==> follows(
                        game.line(),
                        depth,
                        self.game_tree[i].0.notation(),
                    )
            }
    }

    /// What every tree that `new` makes holds.
    pub closed spec fn wf(&self) -> bool {
        self.wf_at(0)
    }

    /// The games of the tree, each as often as it was filed.
    pub closed spec fn games(&self) -> Multiset<G> {
        self.all_games()
    }

    /// Which games are filed under the branches depends on the branches
    /// alone.
    proof fn lemma_games_from_same(&self, other: &Self, from: nat)
        requires
            self.game_tree@ == other.game_tree@,
        ensures
            self.games_from(from) == other.games_from(from),
        decreases self.game_tree.len() - from,
    {
        if from < self.game_tree.len() {
            self.lemma_games_from_same(other, from + 1);
        }
    }

    /// A branch more brings its games.
    proof fn lemma_games_from_push(&self, longer: &Self, from: nat)
        requires
            longer.game_tree@.len() > 0,
            longer.game_tree@.drop_last() == self.game_tree@,
            from <= self.game_tree.len(),
        ensures
            longer.games_from(from) == self.games_from(from).add(
                longer.game_tree@.last().1.all_games(),
            ),
        decreases self.game_tree.len() - from,
    {
        if from < self.game_tree.len() {
            self.lemma_games_from_push(longer, from + 1);
        } else {
            assert(longer.games_from(from + 1) == Multiset::<G>::empty());
        }
    }

    /// A game more in the branch `at` is a game more under the branches up
    /// to that one.
    proof fn lemma_games_from_grown(&self, grown: &Self, at: int, game: G, from: nat)
        requires
            0 <= at < self.game_tree.len(),
            grown.game_tree.len() == self.game_tree.len(),
            forall|i: int|
                0 <= i < self.game_tree.len() && i != at ==> grown.game_tree[i]
                    == self.game_tree[i],
            grown.game_tree[at].1.all_games() == self.game_tree[at].1.all_games().insert(game),
        ensures
            grown.games_from(from) == if from <= at {
                self.games_from(from).insert(game)
            } else {
                self.games_from(from)
            },
        decreases self.game_tree.len() - from,
    {
        if from < self.game_tree.len() {
            self.lemma_games_from_grown(grown, at, game, from + 1);
        }
    }

    /// The place of the branch that goes on with `chess_move`.
    fn find(&self, chess_move: &M) -> (found: Option<usize>)
        ensures
            match found {
                Some(i) => i < self.game_tree.len() && self.game_tree[i as int].0.notation()
                    == chess_move.notation(),
                None => forall|i: int|
                    0 <= i < self.game_tree.len() ==> (#[trigger] self.game_tree[i]).0.notation()
                        != chess_move.notation(),
            },
    {
        let mut i: usize = 0;
        while i < self.game_tree.len()
            invariant
                i <= self.game_tree.len(),
                forall|j: int|
                    0 <= j < i ==> (#[trigger] self.game_tree[j]).0.notation()
                        != chess_move.notation(),
            decreases self.game_tree.len() - i,
        {
            proof {
                M::lemma_equal_by_notation(&self.game_tree[i as int].0, chess_move);
            }
            if self.game_tree[i].0 == *chess_move {
                return Some(i);
            }
            i += 1;
        }
        None
    }

    /// Whether `grown` is this part of the tree with `game` filed in it.
    spec fn grown_by(&self, grown: &Self, depth: nat, game: G) -> bool {
        grown.wf_at(depth) && grown.all_games() == self.all_games().insert(game)
    }

    /// Whether `grown` is this part of the tree with another tree in place
    /// of that of its branch `at`.
    spec fn regrown_at(&self, grown: &Self, at: int) -> bool {
        &&& grown.games@ == self.games@
        &&& grown.game_tree.len() == self.game_tree.len()
        &&& forall|i: int|
            0 <= i < self.game_tree.len() && i != at ==> grown.game_tree[i] == self.game_tree[i]
        &&& grown.game_tree[at].0 == self.game_tree[at].0
    }

    /// A part of the tree with `game` filed in its branch `at` is that part
    /// with `game` filed in it.
    proof fn lemma_grown_in_branch(&self, grown: &Self, depth: nat, at: int, game: G)
        requires
            self.wf_at(depth),
            0 <= at < self.game_tree.len(),
            follows(game.line(), depth, self.game_tree[at].0.notation()),
        ensures
            self.regrown_at(grown, at) && self.game_tree[at].1.grown_by(
                &grown.game_tree[at].1,
                depth + 1,
                game,
            ) ==> self.grown_by(grown, depth, game),
    {
        if self.regrown_at(grown, at) && self.game_tree[at].1.grown_by(
            &grown.game_tree[at].1,
            depth + 1,
            game,
        ) {
            self.lemma_games_from_grown(grown, at, game, 0);
            assert(grown.all_games() =~= self.all_games().insert(game));
            assert forall|i: int| 0 <= i < grown.game_tree.len() implies {
                &&& (#[trigger] grown.game_tree[i]).1.wf_at(depth + 1)
                &&& grown.game_tree[i].1.all_games().len() > 0
                &&& forall|other: G| #[trigger]
                    grown.game_tree[i].1.all_games().contains(other) ==> follows(
                        other.line(),
                        depth,
                        grown.game_tree[i].0.notation(),
                    )
            } by {
                if i == at {
                    assert forall|other: G| #[trigger]
                        grown.game_tree[i].1.all_games().contains(other) implies follows(
                        other.line(),
                        depth,
                        grown.game_tree[i].0.notation(),
                    ) by {
                        if other != game {
                            assert(self.game_tree[i].1.all_games().contains(other));
                        }
                    }
                }
            }
        }
    }

    /// A part of the tree with a new branch that holds `game` alone is that
    /// part with `game` filed in it.
    proof fn lemma_grown_by_branch(&self, grown: &Self, depth: nat, game: G)
        requires
            self.wf_at(depth),
            game.line().len() > depth,
            forall|i: int|
                0 <= i < self.game_tree.len() ==> (#[trigger] self.game_tree[i]).0.notation()
                    != game.line()[depth as int],
        ensures
            ({
                &&& grown.games@ == self.games@
                &&& grown.game_tree.len() == self.game_tree.len() + 1
                &&& grown.game_tree@.drop_last() == self.game_tree@
                &&& grown.game_tree@.last().0.notation() == game.line()[depth as int]
                &&& grown.game_tree@.last().1.wf_at(depth + 1)
                &&& grown.game_tree@.last().1.all_games() == Multiset::<G>::empty().insert(game)
            }) ==> self.grown_by(grown, depth, game),
    {
        let alone = Multiset::<G>::empty().insert(game);
        if grown.games@ == self.games@ && grown.game_tree.len() == self.game_tree.len() + 1
            && grown.game_tree@.drop_last() == self.game_tree@
            && grown.game_tree@.last().1.all_games() == alone {
            self.lemma_games_from_push(grown, 0);
            assert(grown.all_games() =~= self.all_games().insert(game));
            assert forall|i: int| 0 <= i < self.game_tree.len() implies grown.game_tree[i]
                == self.game_tree[i] by {}
        }
    }

    /// A tree without games or branches holds no games.
    proof fn lemma_bare(&self)
        requires
            self.games@.len() == 0,
            self.game_tree@.len() == 0,
        ensures
            self.all_games() == Multiset::<G>::empty(),
    {
        self.games@.to_multiset_ensures();
        lemma_multiset_empty_len(self.games@.to_multiset());
    }

    /// Files `game`, whose moves are `line`, in the tree: walks down the
    /// branches of its moves, making those that are not there yet, and
    /// leaves the game where its moves end.
    #[verifier::loop_isolation(false)]
    fn insert(&mut self, line: &Vec<M>, game: G)
        requires
            old(self).wf_at(0),
            notations(line@) == game.line(),
        ensures
            final(self).wf_at(0),
            final(self).all_games() == old(self).all_games().insert(game),
    {
        let ghost whole = *final(self);
        let mut current_position: &mut MoveTree<M, G> = self;
        let mut depth: usize = 0;

        while depth < line.len()
            invariant
                depth <= line.len(),
                current_position.wf_at(depth as nat),
                // What is left to do: once the game is filed in the part of
                // the tree that was reached, it is filed in the whole tree.
                current_position.grown_by(final(current_position), depth as nat, game) ==> old(
                    self,
                ).grown_by(&whole, 0, game),
            decreases line.len() - depth,
        {
            let ghost here = *current_position;
            let ghost grown = *final(current_position);
            let chess_move = &line[depth];

            match current_position.find(chess_move) {
                Some(next) => {
                    current_position = &mut current_position.game_tree[next].1;
                    proof {
                        here.lemma_grown_in_branch(&grown, depth as nat, next as int, game);
                    }
                },
                None => {
                    // Have to make the branch for the first time.
                    let key = chess_move.clone();
                    let bare = MoveTree { games: Vec::new(), game_tree: Vec::new() };
                    proof {
                        M::lemma_clone_keeps_notation(chess_move, &key);
                        bare.lemma_bare();
                    }
                    current_position.game_tree.push((key, bare));
                    let next = current_position.game_tree.len() - 1;
                    current_position = &mut current_position.game_tree[next].1;
                    proof {
                        here.lemma_grown_by_branch(&grown, depth as nat, game);
                        assert(grown.game_tree@.drop_last() =~= here.game_tree@);
                    }
                },
            }
            depth += 1;
        }
        let ghost here = *current_position;
        current_position.games.push(game);
        proof {
            here.lemma_games_from_same(current_position, 0);
            to_multiset_build(here.games@, game);
            assert(current_position.all_games() =~= here.all_games().insert(game));
        }
    }

    /// Creates a new `MoveTree<M, G>` from the provided `games`.
    pub fn new(games: Vec<G>) -> (tree: MoveTree<M, G>)
        ensures
            tree.wf(),
            tree.games() == games@.to_multiset(),
    {
        broadcast use group_to_multiset_ensures;

        let mut tree = MoveTree { games: Vec::new(), game_tree: Vec::new() };
        let ghost all = games@;
        for game in iter: games
            invariant
                iter.seq() == all,
                tree.wf_at(0),
                tree.all_games() == all.take(iter.index() as int).to_multiset(),
        {
            proof {
                let filed = all.take(iter.index() as int);
                assert(all.take(iter.index() + 1) =~= filed.push(game));
                to_multiset_build(filed, game);
            }
            let line = game.list_moves();
            tree.insert(&line, game);
        }
        assert(all.take(all.len() as int) =~= all);
        tree
    }

    /// How often `game` is filed under the branches from `from` on, for a
    /// game that went on with `notation`: as often as under the branch of
    /// that move, `at`, if there is one.
    proof fn lemma_count_in_branches(
        &self,
        depth: nat,
        notation: Seq<char>,
        at: Option<int>,
        from: nat,
        game: G,
    )
        requires
            self.wf_at(depth),
            follows(game.line(), depth, notation),
            match at {
                Some(i) => 0 <= i < self.game_tree.len() && self.game_tree[i].0.notation()
                    == notation,
                None => forall|i: int|
                    0 <= i < self.game_tree.len() ==> (#[trigger] self.game_tree[i]).0.notation()
                        != notation,
            },
        ensures
            self.games_from(from).count(game) == match at {
                Some(i) if from <= i => self.game_tree[i].1.all_games().count(game),
                _ => 0,
            },
        decreases self.game_tree.len() - from,
    {
        if from < self.game_tree.len() {
            self.lemma_count_in_branches(depth, notation, at, from + 1, game);
            if at != Some(from as int) {
                let branch = self.game_tree[from as int];
                assert(!branch.1.all_games().contains(game));
            }
        }
    }

    /// The games of the tree that went on with `notation` are those of the
    /// branch of that move, `at`, if there is one.
    proof fn lemma_narrowed(&self, depth: nat, notation: Seq<char>, at: Option<int>)
        requires
            self.wf_at(depth),
            match at {
                Some(i) => 0 <= i < self.game_tree.len() && self.game_tree[i].0.notation()
                    == notation,
                None => forall|i: int|
                    0 <= i < self.game_tree.len() ==> (#[trigger] self.game_tree[i]).0.notation()
                        != notation,
            },
        ensures
            narrowed(self.all_games(), depth, notation) == match at {
                Some(i) => self.game_tree[i].1.all_games(),
                None => Multiset::empty(),
            },
    {
        broadcast use group_to_multiset_ensures;

        let chosen = match at {
            Some(i) => self.game_tree[i].1.all_games(),
            None => Multiset::empty(),
        };
        assert forall|game: G|
            narrowed(self.all_games(), depth, notation).count(game) == chosen.count(game) by {
            if follows(game.line(), depth, notation) {
                self.lemma_count_in_branches(depth, notation, at, 0, game);
            } else if at is Some {
                assert(!chosen.contains(game));
            }
        }
    }

    /// Returns a subset of the move tree where only games with the next move being `chess_move`
    /// are included.
    pub fn with_next(&self, chess_move: &M) -> (next: MoveTreeView<'_, M, G>)
        requires
            self.wf(),
        ensures
            next.wf(),
            next.depth() == 1,
            next.games() == narrowed(self.games(), 0, chess_move.notation()),
            next.present() <==> next.games().len() > 0,
    {
        self.view().with_next(chess_move)
    }

    /// Returns a view of this `MoveTree<M, G>`, which can be iterated over to find all games in
    /// the `MoveTree<M, G>`.
    pub fn view(&self) -> (view: MoveTreeView<'_, M, G>)
        requires
            self.wf(),
        ensures
            view.wf(),
            view.present(),
            view.depth() == 0,
            view.games() == self.games(),
    {
        MoveTreeView::new(Some(self), Ghost(0))
    }
}

/// A view of a subtree within a `MoveTree<M, G>`.
pub struct MoveTreeView<'a, M: Move, G: ListMoves<M>> {
    game_tree: Option<&'a MoveTree<M, G>>,
    depth: Ghost<nat>,
}

impl<'a, M: Move, G: ListMoves<M>> Clone for MoveTreeView<'a, M, G> {
    fn clone(&self) -> (copy: Self)
        ensures
            copy == *self,
    {
        MoveTreeView { game_tree: self.game_tree, depth: self.depth }
    }
}

impl<'a, M: Move, G: ListMoves<M>> MoveTreeView<'a, M, G> {
    /// What every view that the tree hands out holds.
    pub closed spec fn wf(&self) -> bool {
        self.game_tree matches Some(game_tree) ==> game_tree.wf_at(self.depth@)
    }

    /// Whether any game was played along the moves that led to this view.
    /// The view of a whole tree is present even where the tree is empty.
    pub closed spec fn present(&self) -> bool {
        self.game_tree is Some
    }

    /// The number of moves that led to this view.
    pub closed spec fn depth(&self) -> nat {
        self.depth@
    }

    /// The games that the view shows, each as often as it was filed.
    pub closed spec fn games(&self) -> Multiset<G> {
        match self.game_tree {
            Some(game_tree) => game_tree.all_games(),
            None => Multiset::empty(),
        }
    }

    /// A view that is not present shows no games.
    pub proof fn lemma_absent_shows_nothing(&self)
        requires
            !self.present(),
        ensures
            self.games() == Multiset::<G>::empty(),
    {
    }

    fn new(game_tree: Option<&'a MoveTree<M, G>>, depth: Ghost<nat>) -> (view: MoveTreeView<
        'a,
        M,
        G,
    >)
        requires
            game_tree matches Some(game_tree) ==> game_tree.wf_at(depth@),
        ensures
            view.wf(),
            view.game_tree == game_tree,
            view.depth == depth,
    {
        MoveTreeView { game_tree: game_tree, depth: depth }
    }

    /// Behaves in the same way as `MoveTree::with_next`.
    pub fn with_next(self, chess_move: &M) -> (next: MoveTreeView<'a, M, G>)
        requires
            self.wf(),
        ensures
            next.wf(),
            next.depth() == self.depth() + 1,
            next.games() == narrowed(self.games(), self.depth(), chess_move.notation()),
            next.present() <==> next.games().len() > 0,
    {
        let ghost depth = self.depth@;
        if let Some(game_tree) = self.game_tree {
            if let Some(i) = game_tree.find(chess_move) {
                proof {
                    game_tree.lemma_narrowed(depth, chess_move.notation(), Some(i as int));
                }
                MoveTreeView::new(Some(&game_tree.game_tree[i].1), Ghost(depth + 1))
            } else {
                proof {
                    game_tree.lemma_narrowed(depth, chess_move.notation(), None);
                }
                MoveTreeView::new(None, Ghost(depth + 1))
            }
        } else {
            MoveTreeView::new(None, Ghost(depth + 1))
        }
    }

    /// Follows the moves that `moves` spell, one after the other, as far as
    /// they are moves: the first text that is none is refused.
    pub fn with_moves(self, moves: &Vec<String>) -> (narrowed: Result<
        MoveTreeView<'a, M, G>,
        SANError,
    >)
        requires
            self.wf(),
        ensures
            match narrowed {
                Ok(view) => {
                    &&& first_refused::<M>(texts(moves@)) == moves@.len()
                    &&& view.wf()
                    &&& view.depth() == self.depth() + moves@.len()
                    &&& view.games() == narrowed_along(self.games(), self.depth(), texts(moves@))
                    &&& view.present() <==> if moves@.len() == 0 {
                        self.present()
                    } else {
                        view.games().len() > 0
                    }
                },
                Err(error) => {
                    let refused = first_refused::<M>(texts(moves@));
                    &&& refused < moves@.len()
                    &&& error@ == M::refusal(texts(moves@)[refused])
                },
            },
    {
        let ghost all = texts(moves@);
        let mut move_tree_view = self.clone();
        proof {
            lemma_narrowed_along_nothing::<M, G>(self.games(), self.depth());
        }
        let mut i: usize = 0;
        while i < moves.len()
            invariant
                i <= moves.len(),
                all == texts(moves@),
                forall|j: int| 0 <= j < i ==> M::accepts(#[trigger] all[j]),
                move_tree_view.wf(),
                move_tree_view.depth() == self.depth() + i,
                move_tree_view.games() == narrowed_along(
                    self.games(),
                    self.depth(),
                    all.take(i as int),
                ),
                move_tree_view.present() <==> if i == 0 {
                    self.present()
                } else {
                    move_tree_view.games().len() > 0
                },
            decreases moves.len() - i,
        {
            let chess_move = match M::try_from_algebraic(moves[i].clone()) {
                Ok(chess_move) => chess_move,
                Err(error) => {
                    proof {
                        lemma_first_refused_from::<M>(all, i as int);
                    }
                    return Err(error);
                },
            };
            proof {
                lemma_narrowed_along_one_more::<M, G>(
                    self.games(),
                    self.depth(),
                    all.take(i as int),
                    chess_move.notation(),
                );
                assert(all.take(i + 1) =~= all.take(i as int).push(chess_move.notation()));
            }
            move_tree_view = move_tree_view.with_next(&chess_move);
            i += 1;
        }
        proof {
            lemma_first_refused_from::<M>(all, i as int);
            assert(all.take(i as int) =~= all);
        }
        Ok(move_tree_view)
    }

    /// Returns the moves with which the games of the view went on, or `None`
    /// where the view is not present. No move comes twice.
    pub fn branches(&self) -> (branches: Option<Vec<&'a M>>)
        requires
            self.wf(),
        ensures
            branches is Some <==> self.present(),
            branches matches Some(moves) ==> {
                &&& no_move_twice(moves@)
                &&& forall|notation: Seq<char>| #[trigger]
                    has_move(moves@, notation) <==> narrowed(
                        self.games(),
                        self.depth(),
                        notation,
                    ).len() > 0
            },
    {
        let game_tree = match self.game_tree {
            Some(game_tree) => game_tree,
            None => {
                return None;
            },
        };
        let mut moves: Vec<&'a M> = Vec::new();
        let mut i: usize = 0;
        while i < game_tree.game_tree.len()
            invariant
                i <= game_tree.game_tree.len(),
                moves@.len() == i,
                forall|j: int| 0 <= j < i ==> *(#[trigger] moves@[j]) == game_tree.game_tree[j].0,
            decreases game_tree.game_tree.len() - i,
        {
            moves.push(&game_tree.game_tree[i].0);
            i += 1;
        }
        proof {
            assert forall|notation: Seq<char>| #[trigger]
                has_move(moves@, notation) <==> narrowed(
                    self.games(),
                    self.depth(),
                    notation,
                ).len() > 0 by {
                if has_move(moves@, notation) {
                    let at = choose|i: int|
                        0 <= i < moves@.len() && (#[trigger] moves@[i]).notation() == notation;
                    game_tree.lemma_narrowed(self.depth@, notation, Some(at));
                } else {
                    assert forall|i: int| 0 <= i < game_tree.game_tree.len() implies (
                    #[trigger] game_tree.game_tree[i]).0.notation() != notation by {
                        assert(moves@[i].notation() == game_tree.game_tree[i].0.notation());
                    }
                    game_tree.lemma_narrowed(self.depth@, notation, None);
                }
            }
        }
        Some(moves)
    }

    /// Returns an iterator to all games represented by the `MoveTreeView<M, G>`.
    pub fn iter(&self) -> (iter: Iter<'a, M, G>)
        ensures
            iter.wf(),
            iter.remaining() == self.games(),
    {
        Iter::new(&self.game_tree)
    }
}

/// The games behind a sequence of references.
pub open spec fn pointed<G>(games: Seq<&G>) -> Seq<G> {
    games.map_values(|game: &G| *game)
}

/// An iterator over games in a `MoveTree<M, G>`.
pub struct Iter<'a, M: Move, G: ListMoves<M>> {
    internal: Option<InternalIter<'a, M, G>>,
}

impl<'a, M: Move, G: ListMoves<M>> Iter<'a, M, G> {
    /// What every iterator that a view hands out holds, and keeps.
    pub closed spec fn wf(&self) -> bool {
        self.internal matches Some(internal) ==> internal.wf()
    }

    /// The games that are still to come, each as often as it will come.
    pub closed spec fn remaining(&self) -> Multiset<G> {
        match self.internal {
            Some(internal) => internal.remaining(),
            None => Multiset::empty(),
        }
    }

    fn new(game_tree: &Option<&'a MoveTree<M, G>>) -> (iter: Iter<'a, M, G>)
        ensures
            iter.wf(),
            iter.remaining() == match *game_tree {
                Some(game_tree) => game_tree.all_games(),
                None => Multiset::empty(),
            },
    {
        if let Some(game_tree) = game_tree {
            Iter { internal: Some(InternalIter::new(game_tree)) }
        } else {
            Iter { internal: None }
        }
    }

    /// Hands out one of the games that are still to come, or `None` when
    /// none is left. In which order the games come is not fixed.
    pub fn next(&mut self) -> (next: Option<&'a G>)
        requires
            old(self).wf(),
        ensures
            final(self).wf(),
            match next {
                Some(game) => old(self).remaining().contains(*game) && final(self).remaining()
                    == old(self).remaining().remove(*game),
                None => old(self).remaining().len() == 0 && final(self).remaining() == old(
                    self,
                ).remaining(),
            },
    {
        if let Some(iter) = &mut self.internal {
            iter.next()
        } else {
            None
        }
    }

    /// Hands out all games that are still to come.
    pub fn collect(self) -> (games: Vec<&'a G>)
        requires
            self.wf(),
        ensures
            pointed(games@).to_multiset() == self.remaining(),
    {
        broadcast use group_to_multiset_ensures;

        let mut iter = self;
        let mut games: Vec<&'a G> = Vec::new();
        loop
            invariant
                iter.wf(),
                pointed(games@).to_multiset().add(iter.remaining()) == self.remaining(),
            ensures
                pointed(games@).to_multiset() == self.remaining(),
            decreases iter.remaining().len(),
        {
            let ghost gathered = pointed(games@);
            let ghost left = iter.remaining();
            match iter.next() {
                Some(game) => {
                    games.push(game);
                    proof {
                        assert(pointed(games@) =~= gathered.push(*game));
                        to_multiset_build(gathered, *game);
                    }
                },
                None => {
                    proof {
                        lemma_multiset_empty_len(left);
                    }
                    break ;
                },
            }
        }
        games
    }
}

/// The games that are still to come from the nodes of `stack`: for each
/// node, those of the branches that were not entered yet.
spec fn stack_games<M: Move, G: ListMoves<M>>(stack: Seq<(&MoveTree<M, G>, usize)>) -> Multiset<G>
    decreases stack.len(),
{
    if stack.len() == 0 {
        Multiset::empty()
    } else {
        stack_games(stack.drop_last()).add(stack.last().0.games_from(stack.last().1 as nat))
    }
}

/// The steps that a traversal still takes until `stack` is empty.
spec fn stack_visits<M: Move, G: ListMoves<M>>(stack: Seq<(&MoveTree<M, G>, usize)>) -> nat
    decreases stack.len(),
{
    if stack.len() == 0 {
        0
    } else {
        stack_visits(stack.drop_last()) + 1 + stack.last().0.visits_from(stack.last().1 as nat)
    }
}

/// A traversal on its way: the games that end at the node that was entered
/// last, with the place of the one that comes next, and the nodes on the way
/// to that node, each with the place of the branch that is entered next.
struct InternalIter<'a, M: Move, G: ListMoves<M>> {
    games: &'a Vec<G>,
    next_game: usize,
    node_stack: Vec<(&'a MoveTree<M, G>, usize)>,
}

impl<'a, M: Move, G: ListMoves<M>> InternalIter<'a, M, G> {
    /// The places are places in the games and the branches, or one beyond.
    spec fn wf(&self) -> bool {
        &&& self.next_game <= self.games.len()
        &&& forall|i: int|
            0 <= i < self.node_stack.len() ==> (#[trigger] self.node_stack[i]).1
                <= self.node_stack[i].0.game_tree.len()
    }

    /// The games that are still to come: those of the node that was entered
    /// last, and those under the branches that are still to be entered.
    spec fn remaining(&self) -> Multiset<G> {
        self.games@.skip(self.next_game as int).to_multiset().add(stack_games(self.node_stack@))
    }

    fn new(game_tree: &'a MoveTree<M, G>) -> (iter: InternalIter<'a, M, G>)
        ensures
            iter.wf(),
            iter.remaining() == game_tree.all_games(),
    {
        let mut node_stack = Vec::new();
        node_stack.push((game_tree, 0));
        proof {
            assert(node_stack@.drop_last() =~= Seq::empty());
            assert(game_tree.games@.skip(0) =~= game_tree.games@);
            assert(stack_games::<M, G>(Seq::empty()) =~= Multiset::empty());
        }
        InternalIter { games: &game_tree.games, next_game: 0, node_stack: node_stack }
    }

    fn next(&mut self) -> (next: Option<&'a G>)
        requires
            old(self).wf(),
        ensures
            final(self).wf(),
            match next {
                Some(game) => old(self).remaining().contains(*game) && final(self).remaining()
                    == old(self).remaining().remove(*game),
                None => old(self).remaining().len() == 0 && final(self).remaining() == old(
                    self,
                ).remaining(),
            },
    {
        broadcast use group_to_multiset_ensures;

        loop
            invariant
                self.wf(),
                self.remaining() == old(self).remaining(),
            decreases stack_visits(self.node_stack@),
        {
            // The games that end at the node that was entered last come first.
            if self.next_game < self.games.len() {
                let game = &self.games[self.next_game];
                proof {
                    let rest = self.games@.skip(self.next_game as int);
                    assert(rest.remove(0) =~= self.games@.skip(self.next_game + 1));
                    assert(rest.contains(rest[0]));
                    rest.to_multiset_ensures();
                }
                self.next_game += 1;
                return Some(game);
            }
            let height = self.node_stack.len();
            if height == 0 {
                proof {
                    let rest = self.games@.skip(self.next_game as int);
                    rest.to_multiset_ensures();
                    lemma_multiset_empty_len(rest.to_multiset());
                }
                return None;
            }
            // Then the next branch of the node on top is entered, or the node
            // is left where it has no branch more.
            let ghost stack = self.node_stack@;
            let ghost done = self.games@.skip(self.next_game as int);
            let (node, branch) = self.node_stack[height - 1];
            self.node_stack.pop();
            if branch < node.game_tree.len() {
                let subtree = &node.game_tree[branch].1;
                self.node_stack.push((node, branch + 1));
                self.node_stack.push((subtree, 0));
                self.games = &subtree.games;
                self.next_game = 0;
                proof {
                    let below = stack.drop_last();
                    let entered = below.push((node, (branch + 1) as usize));
                    assert(self.node_stack@.drop_last() =~= entered);
                    assert(entered.drop_last() =~= below);
                    assert(self.games@.skip(0) =~= self.games@);
                    done.to_multiset_ensures();
                    lemma_multiset_empty_len(done.to_multiset());
                    assert(stack_games(entered) == stack_games(below).add(
                        node.games_from((branch + 1) as nat),
                    ));
                    assert(subtree.all_games() == subtree.games@.to_multiset().add(
                        subtree.games_from(0),
                    ));
                    assert(stack_visits(entered) == stack_visits(below) + 1 + node.visits_from(
                        (branch + 1) as nat,
                    ));
                }
            }
        }
    }
}

} // verus!
