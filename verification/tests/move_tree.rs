use chesshound::game::Game;
use chesshound::game::GameMoves;
use chesshound::move_tree::MoveTree;
use chesshound::move_tree::MoveTreeView;
use chesshound::moves::AlgebraicMove;
use chesshound::moves::Move;
use chesshound::parsing::GameParser;

type AlgebraicGame = GameMoves<AlgebraicMove>;
type AlgebraicGameTree = MoveTree<AlgebraicMove, AlgebraicGame>;
type AlgebraicGameTreeView<'a> = MoveTreeView<'a, AlgebraicMove, AlgebraicGame>;

fn game_of(san_moves: &[&str]) -> AlgebraicGame {
    GameMoves::new(
        san_moves
            .iter()
            .map(|san_move| AlgebraicMove::from_algebraic(String::from(*san_move)))
            .collect(),
    )
}

fn unplayed_game() -> AlgebraicGame {
    game_of(&[])
}

fn italian_game() -> AlgebraicGame {
    game_of(&["e4", "e5", "Nf3", "Nc6", "Bc4"])
}

fn ruy_lopez() -> AlgebraicGame {
    game_of(&["e4", "e5", "Nf3", "Nc6", "Bb5"])
}

fn sicilian_naijdorf() -> AlgebraicGame {
    game_of(&["e4", "c5", "Nf3", "d3", "e5", "cxe5", "Nxe5", "Nf6", "Nc3", "a6"])
}

fn sicilian_dragon() -> AlgebraicGame {
    game_of(&["e4", "c5", "Nf3", "d3", "e5", "cxe5", "Nxe5", "Nf6", "Nc3", "g6"])
}

fn queens_gambit() -> AlgebraicGame {
    game_of(&["d4", "d5", "c4"])
}

fn san(san_move: &str) -> AlgebraicMove {
    AlgebraicMove::from_algebraic(String::from(san_move))
}

fn contains_same_games(move_tree_view: AlgebraicGameTreeView, mut games: Vec<AlgebraicGame>) -> bool {
    let mut iter = move_tree_view.iter();
    while let Some(game) = iter.next() {
        let mut target_index = games.len();
        let mut one_found = false;

        for (index, other_game) in games.iter().enumerate() {
            if game == other_game {
                target_index = index;
                one_found = true;
            }
        }

        if !one_found {
            return false;
        }

        if target_index != games.len() {
            games.remove(target_index);
        }
    }

    games.len() == 0
}

fn along<'a>(move_tree: &'a AlgebraicGameTree, moves: &[&str]) -> AlgebraicGameTreeView<'a> {
    let mut move_tree_view = move_tree.view();

    for algebraic_move in moves {
        move_tree_view = move_tree_view.with_next(&san(algebraic_move));
    }

    move_tree_view
}

fn move_tree() -> AlgebraicGameTree {
    MoveTree::new(vec![
        italian_game(),
        ruy_lopez(),
        sicilian_naijdorf(),
        sicilian_dragon(),
        queens_gambit(),
    ])
}

fn move_tree_with_aborts() -> AlgebraicGameTree {
    MoveTree::new(vec![unplayed_game(), unplayed_game(), ruy_lopez()])
}

fn lines_of(move_tree_view: &AlgebraicGameTreeView) -> Vec<Vec<String>> {
    let mut lines: Vec<Vec<String>> = move_tree_view
        .iter()
        .collect()
        .into_iter()
        .map(|game| {
            chesshound::game::ListMoves::list_moves(game)
                .into_iter()
                .map(|chess_move| chess_move.to_algebraic())
                .collect()
        })
        .collect();
    lines.sort();
    lines
}

#[test]
fn with_next_should_return_subsets_of_move_tree() {
    let move_tree = move_tree();

    assert!(contains_same_games(
        along(&move_tree, &["e4", "c5"]),
        vec![sicilian_naijdorf(), sicilian_dragon()]
    ));
    assert!(contains_same_games(along(&move_tree, &["d4"]), vec![queens_gambit()]));
    assert!(contains_same_games(along(&move_tree, &["c4", "e5"]), vec![]));
}

#[test]
fn move_trees_should_allow_unplayed_games() {
    let move_tree_with_aborts = move_tree_with_aborts();

    assert!(contains_same_games(
        move_tree_with_aborts.view(),
        vec![unplayed_game(), ruy_lopez(), unplayed_game()]
    ));
}

#[test]
fn the_whole_view_holds_every_game_once() {
    let move_tree = move_tree();

    assert!(contains_same_games(
        move_tree.view(),
        vec![
            queens_gambit(),
            sicilian_dragon(),
            italian_game(),
            sicilian_naijdorf(),
            ruy_lopez(),
        ]
    ));
    assert!(!contains_same_games(
        move_tree.view(),
        vec![queens_gambit(), sicilian_dragon(), italian_game(), sicilian_naijdorf()]
    ));
    assert_eq!(move_tree.view().iter().collect().len(), 5);
}

#[test]
fn a_game_given_twice_is_found_twice() {
    let move_tree: AlgebraicGameTree =
        MoveTree::new(vec![ruy_lopez(), queens_gambit(), ruy_lopez(), ruy_lopez()]);

    assert_eq!(move_tree.view().iter().collect().len(), 4);
    assert!(contains_same_games(
        move_tree.view(),
        vec![ruy_lopez(), ruy_lopez(), queens_gambit(), ruy_lopez()]
    ));
    assert!(!contains_same_games(move_tree.view(), vec![ruy_lopez(), queens_gambit()]));
    assert_eq!(along(&move_tree, &["e4", "e5", "Nf3", "Nc6", "Bb5"]).iter().collect().len(), 3);
}

#[test]
fn a_tree_of_no_games_shows_none() {
    let move_tree: AlgebraicGameTree = MoveTree::new(Vec::new());

    assert!(move_tree.view().iter().next().is_none());
    assert!(move_tree.with_next(&san("e4")).iter().next().is_none());
    assert_eq!(move_tree.view().branches().map(|branches| branches.len()), Some(0));
    assert!(move_tree.with_next(&san("e4")).branches().is_none());
}

#[test]
fn the_first_move_selects_the_games_that_began_with_it() {
    let sicilian = game_of(&["e4", "c5"]);
    let open_game = game_of(&["e4", "e5"]);
    let closed_game = game_of(&["d4", "d5"]);
    let move_tree: AlgebraicGameTree =
        MoveTree::new(vec![sicilian.clone(), open_game.clone(), closed_game.clone()]);

    assert!(contains_same_games(
        move_tree.with_next(&san("e4")),
        vec![open_game.clone(), sicilian.clone()]
    ));
    assert!(contains_same_games(move_tree.with_next(&san("d4")), vec![closed_game.clone()]));
    assert!(contains_same_games(
        move_tree.with_next(&san("e4")).with_next(&san("c5")),
        vec![sicilian.clone()]
    ));
    assert!(contains_same_games(
        move_tree.view().with_next(&san("e4")).with_next(&san("e5")),
        vec![open_game.clone()]
    ));
    assert!(contains_same_games(move_tree.with_next(&san("e4")).with_next(&san("d5")), vec![]));
}

#[test]
fn a_move_counts_only_at_its_place() {
    let move_tree = move_tree();

    // e5 is played in all games that begin with e4, but not as their first move.
    assert!(contains_same_games(along(&move_tree, &["e5"]), vec![]));
    assert!(contains_same_games(along(&move_tree, &["c4"]), vec![]));
    assert!(contains_same_games(along(&move_tree, &["d4", "d5", "c4"]), vec![queens_gambit()]));
}

#[test]
fn games_go_apart_at_the_first_move_that_differs() {
    let move_tree = move_tree();

    assert_eq!(
        lines_of(&along(&move_tree, &["e4", "e5", "Nf3", "Nc6"])),
        lines_of(&along(&move_tree, &["e4", "e5"]))
    );
    assert!(contains_same_games(
        along(&move_tree, &["e4", "e5", "Nf3", "Nc6", "Bc4"]),
        vec![italian_game()]
    ));
    assert!(contains_same_games(
        along(&move_tree, &["e4", "e5", "Nf3", "Nc6", "Bb5"]),
        vec![ruy_lopez()]
    ));
    assert!(contains_same_games(
        along(&move_tree, &["e4", "c5", "Nf3", "d3", "e5", "cxe5", "Nxe5", "Nf6", "Nc3", "g6"]),
        vec![sicilian_dragon()]
    ));
}

#[test]
fn a_game_that_ends_on_the_way_is_found_with_those_that_go_on() {
    let short = game_of(&["e4", "e5"]);
    let move_tree: AlgebraicGameTree =
        MoveTree::new(vec![italian_game(), short.clone(), ruy_lopez()]);

    assert!(contains_same_games(
        along(&move_tree, &["e4", "e5"]),
        vec![short.clone(), ruy_lopez(), italian_game()]
    ));
    assert!(contains_same_games(
        along(&move_tree, &["e4", "e5", "Nf3"]),
        vec![ruy_lopez(), italian_game()]
    ));
}

#[test]
fn a_prefix_that_no_game_follows_gives_an_empty_view() {
    let move_tree = move_tree();

    let absent = along(&move_tree, &["c4", "e5"]);
    assert!(absent.iter().next().is_none());
    assert!(absent.iter().collect().is_empty());
    assert!(absent.branches().is_none());

    let beyond = along(&move_tree, &["d4", "d5", "c4", "e6"]);
    assert!(beyond.iter().next().is_none());
}

#[test]
fn absence_stays() {
    let move_tree = move_tree();

    // e4 leads back to games only from the root.
    let absent = along(&move_tree, &["a3", "e4"]);
    assert!(absent.iter().next().is_none());
    assert!(absent.clone().with_next(&san("e5")).iter().collect().is_empty());
    assert!(absent.with_next(&san("e5")).with_next(&san("Nf3")).branches().is_none());
}

#[test]
fn unplayed_games_are_found_at_the_root_only() {
    let move_tree: AlgebraicGameTree =
        MoveTree::new(vec![unplayed_game(), unplayed_game(), unplayed_game()]);

    assert!(contains_same_games(
        move_tree.view(),
        vec![unplayed_game(), unplayed_game(), unplayed_game()]
    ));
    assert_eq!(move_tree.view().iter().collect().len(), 3);
    for first_move in ["e4", "d4", "Nf3", "O-O"] {
        assert!(move_tree.with_next(&san(first_move)).iter().next().is_none());
        assert!(move_tree.with_next(&san(first_move)).branches().is_none());
    }
    assert_eq!(move_tree.view().branches().map(|branches| branches.len()), Some(0));
}

#[test]
fn unplayed_games_do_not_follow_any_move() {
    let move_tree_with_aborts = move_tree_with_aborts();

    assert!(contains_same_games(move_tree_with_aborts.with_next(&san("e4")), vec![ruy_lopez()]));
}

#[test]
fn a_view_can_be_traversed_again() {
    let move_tree = move_tree();
    let move_tree_view = along(&move_tree, &["e4"]);

    let first = lines_of(&move_tree_view);
    let second = lines_of(&move_tree_view);

    assert_eq!(first, second);
    assert_eq!(first.len(), 4);
}

#[test]
fn traversals_of_one_view_do_not_disturb_each_other() {
    let move_tree = move_tree();
    let move_tree_view = move_tree.view();

    let mut first = move_tree_view.iter();
    let mut second = move_tree_view.iter();
    let mut first_count = 0;
    let mut second_count = 0;
    while first.next().is_some() {
        first_count += 1;
        if second.next().is_some() {
            second_count += 1;
        }
    }
    assert!(second.next().is_none());
    assert!(first.next().is_none());

    assert_eq!(first_count, 5);
    assert_eq!(second_count, 5);
}

#[test]
fn a_cloned_view_shows_the_same_games() {
    let move_tree = move_tree();
    let move_tree_view = along(&move_tree, &["e4", "e5"]);
    let cloned = move_tree_view.clone();

    assert_eq!(lines_of(&move_tree_view), lines_of(&cloned));
    assert!(contains_same_games(
        cloned.with_next(&san("Nf3")),
        vec![italian_game(), ruy_lopez()]
    ));
    assert!(contains_same_games(move_tree_view, vec![italian_game(), ruy_lopez()]));
}

#[test]
fn the_order_of_the_games_given_does_not_change_what_is_found() {
    let forwards: AlgebraicGameTree = MoveTree::new(vec![
        italian_game(),
        unplayed_game(),
        queens_gambit(),
        sicilian_dragon(),
        ruy_lopez(),
    ]);
    let backwards: AlgebraicGameTree = MoveTree::new(vec![
        ruy_lopez(),
        sicilian_dragon(),
        queens_gambit(),
        unplayed_game(),
        italian_game(),
    ]);

    for prefix in [
        vec![],
        vec!["e4"],
        vec!["d4"],
        vec!["e4", "e5"],
        vec!["e4", "c5"],
        vec!["e4", "e5", "Nf3", "Nc6", "Bb5"],
        vec!["Nf3"],
    ] {
        assert_eq!(lines_of(&along(&forwards, &prefix)), lines_of(&along(&backwards, &prefix)));
    }
}

#[test]
fn deep_and_wide_trees_are_traversed_whole() {
    let cycle = ["Nf3", "Nf6", "Ng1", "Ng8"];
    let mut games = Vec::new();
    for length in 0..400 {
        let san_moves: Vec<&str> = (0..length).map(|ply| cycle[ply % 4]).collect();
        games.push(game_of(&san_moves));
    }
    for file in ["a", "b", "c", "d", "e", "f", "g", "h"] {
        for rank in ["3", "4"] {
            let first_move = format!("{}{}", file, rank);
            games.push(game_of(&[first_move.as_str()]));
        }
    }
    let move_tree: AlgebraicGameTree = MoveTree::new(games);

    assert_eq!(move_tree.view().iter().collect().len(), 416);
    assert_eq!(move_tree.with_next(&san("Nf3")).iter().collect().len(), 399);
    assert_eq!(move_tree.with_next(&san("a3")).iter().collect().len(), 1);
    assert_eq!(move_tree.view().branches().map(|branches| branches.len()), Some(17));
}

#[test]
fn branches_are_the_moves_that_come_next() {
    let move_tree = move_tree();

    let mut after_e4: Vec<String> = match along(&move_tree, &["e4"]).branches() {
        Some(branches) => {
            branches.into_iter().map(|chess_move| chess_move.clone().to_algebraic()).collect()
        }
        None => panic!("the view is present"),
    };
    after_e4.sort();
    assert_eq!(after_e4, vec!["c5", "e5"]);

    let mut first_moves: Vec<String> = match move_tree.view().branches() {
        Some(branches) => {
            branches.into_iter().map(|chess_move| chess_move.clone().to_algebraic()).collect()
        }
        None => panic!("the view is present"),
    };
    first_moves.sort();
    assert_eq!(first_moves, vec!["d4", "e4"]);

    assert_eq!(
        along(&move_tree, &["d4", "d5", "c4"]).branches().map(|branches| branches.len()),
        Some(0)
    );
}

#[test]
fn a_check_mark_makes_another_move() {
    let quiet = game_of(&["e4", "e5", "Qh5", "Nc6", "Qxf7"]);
    let checking = game_of(&["e4", "e5", "Qh5", "Nc6", "Qxf7+"]);
    let mating = game_of(&["e4", "e5", "Qh5", "Nc6", "Qxf7#"]);
    let move_tree: AlgebraicGameTree =
        MoveTree::new(vec![quiet.clone(), checking.clone(), mating.clone()]);

    assert!(contains_same_games(
        along(&move_tree, &["e4", "e5", "Qh5", "Nc6", "Qxf7+"]),
        vec![checking.clone()]
    ));
    assert_eq!(along(&move_tree, &["e4", "e5", "Qh5", "Nc6"]).iter().collect().len(), 3);
}

#[test]
fn richer_games_are_filed_by_their_moves_too() {
    let mut games: Vec<Game<AlgebraicMove>> = Vec::new();
    for (white_player, san_moves) in
        [("Nick", vec!["e4", "e5"]), ("Paul", vec!["e4", "c5"]), ("Nick", vec!["e4", "e5"])]
    {
        let mut game_parser = GameParser::new();
        assert!(game_parser.header(b"White", white_player.as_bytes()));
        assert!(game_parser.header(b"Black", b"Someone"));
        assert!(game_parser.header(b"Result", b"1-0"));
        for san_move in san_moves {
            game_parser.san(String::from(san_move));
        }
        games.push(Game::from(game_parser.end_game()));
    }
    let first = games[0].clone();
    let second = games[1].clone();
    let move_tree: MoveTree<AlgebraicMove, Game<AlgebraicMove>> = MoveTree::new(games);

    let open_games = move_tree.with_next(&san("e4")).with_next(&san("e5")).iter().collect();
    assert_eq!(open_games, vec![&first, &first]);
    let sicilians = move_tree.with_next(&san("e4")).with_next(&san("c5")).iter().collect();
    assert_eq!(sicilians, vec![&second]);
}

#[test]
fn with_moves_follows_the_moves_that_the_texts_spell() {
    let move_tree = move_tree();
    let asked: Vec<String> = vec![String::from("e4"), String::from("c5")];

    match move_tree.view().with_moves(&asked) {
        Ok(move_tree_view) => assert!(contains_same_games(
            move_tree_view,
            vec![sicilian_naijdorf(), sicilian_dragon()]
        )),
        Err(san_error) => panic!("refused: {}", san_error.message()),
    }
    match move_tree.view().with_moves(&Vec::new()) {
        Ok(move_tree_view) => assert_eq!(move_tree_view.iter().collect().len(), 5),
        Err(san_error) => panic!("refused: {}", san_error.message()),
    }
    match move_tree.with_next(&san("e4")).with_moves(&vec![String::from("e5")]) {
        Ok(move_tree_view) => {
            assert!(contains_same_games(move_tree_view, vec![italian_game(), ruy_lopez()]))
        }
        Err(san_error) => panic!("refused: {}", san_error.message()),
    }
}

#[test]
fn with_moves_refuses_the_first_text_that_is_no_move() {
    let move_tree = move_tree();
    let asked: Vec<String> = vec![String::from("e4"), String::from("Lxd4"), String::from("")];

    match move_tree.view().with_moves(&asked) {
        Ok(_) => panic!("Invalid SAN accepted"),
        Err(san_error) => assert_eq!(san_error.message(), "Invalid piece/file: L"),
    }
}

#[test]
fn games_that_share_their_first_moves_are_found_together() {
    let e4 = || AlgebraicMove::from_algebraic(String::from("e4"));
    let e5 = || AlgebraicMove::from_algebraic(String::from("e5"));
    let c5 = || AlgebraicMove::from_algebraic(String::from("c5"));
    let nf3 = || AlgebraicMove::from_algebraic(String::from("Nf3"));

    let game_1 = GameMoves::new(vec![e4(), e5()]);
    let game_2 = GameMoves::new(vec![e4(), c5()]);
    let game_3 = GameMoves::new(vec![e4(), c5(), nf3()]);

    let move_tree = MoveTree::new(vec![game_1, game_2, game_3]);

    // Contains game_2 and game_3
    let sicilian_games = move_tree.with_next(&e4()).with_next(&c5());
    assert_eq!(sicilian_games.iter().collect().len(), 2);
    assert!(contains_same_games(
        sicilian_games,
        vec![game_of(&["e4", "c5", "Nf3"]), game_of(&["e4", "c5"])]
    ));
}
