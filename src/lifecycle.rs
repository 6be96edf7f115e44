//! What a room does on each player event, given its board: the decisions of
//! the game's event handlers, apart from the transport that delivers the
//! events and broadcasts the results.

use crate::digsites::{
    eligible, eligible_cell, eligible_upto, empty_cells, generated, has_id, in_zone, listed, moved,
    Cell, DigSite, DigSiteView,
};
use crate::error::GameError;
use crate::geometry::{Point, Size};
use rand::rngs::StdRng;
use vstd::prelude::*;
use vstd::string::*;

verus! {

/// The width of every room's board.
pub const BOARD_WIDTH: usize = 10;

/// The height of every room's board.
pub const BOARD_HEIGHT: usize = 10;

/// The number of hazards on every room's board.
pub const BONE_COUNT: usize = 15;

/// The column of every room's spawn point.
pub const SPAWN_X: i32 = 5;

/// The row of every room's spawn point.
pub const SPAWN_Y: i32 = 5;

/// The size of every room's board.
pub open spec fn board_size() -> Size {
    Size { x: BOARD_WIDTH, y: BOARD_HEIGHT }
}

/// The spawn point of every room's board.
pub open spec fn spawn_point() -> Point {
    Point { x: SPAWN_X, y: SPAWN_Y }
}

/// The step that a move token stands for: one cell up, down, left or
/// right; nothing for any other token.
pub open spec fn direction(token: Seq<char>) -> Option<Point> {
    if token == seq!['u', 'p'] {
        Some(Point { x: 0, y: -1i32 })
    } else if token == seq!['d', 'o', 'w', 'n'] {
        Some(Point { x: 0, y: 1 })
    } else if token == seq!['l', 'e', 'f', 't'] {
        Some(Point { x: -1i32, y: 0 })
    } else if token == seq!['r', 'i', 'g', 'h', 't'] {
        Some(Point { x: 1, y: 0 })
    } else {
        None
    }
}

/// The first `k` positions of the rooms' board, all in the three rows
/// above the exclusion zone, are all eligible.
proof fn lemma_top_rows_eligible(k: int)
    requires
        0 <= k <= 30,
    ensures
        eligible_upto(empty_cells(100), 10, spawn_point(), k).len() == k,
    decreases k,
{
    if k > 0 {
        lemma_top_rows_eligible(k - 1);
        assert((k - 1) / 10 <= 2);
        assert(!in_zone(10, k - 1, spawn_point()));
        assert(empty_cells(100)[k - 1] == Cell::Empty(0));
        assert(eligible_cell(empty_cells(100), 10, k - 1, spawn_point()));
    }
}

/// Eligible positions only accumulate as the bound grows.
proof fn lemma_eligible_grows(cells: Seq<Cell>, w: int, spawn: Point, j: int, k: int)
    requires
        0 <= j <= k,
    ensures
        eligible_upto(cells, w, spawn, j).len() <= eligible_upto(cells, w, spawn, k).len(),
    decreases k - j,
{
    if j < k {
        lemma_eligible_grows(cells, w, spawn, j, k - 1);
    }
}

/// The rooms' board has room for their hazards outside the exclusion zone.
pub proof fn lemma_configuration_fits()
    ensures
        BONE_COUNT <= eligible(empty_cells((BOARD_WIDTH * BOARD_HEIGHT) as nat), BOARD_WIDTH as int, spawn_point()).len(),
{
    lemma_top_rows_eligible(30);
    lemma_eligible_grows(empty_cells(100), 10, spawn_point(), 30, 100);
    assert(empty_cells(100).len() == 100);
}

/// The step for a move token (`up`, `down`, `left` or `right`), or `None`
/// for a token that names no direction.
pub fn direction_offset(token: &String) -> (r: Option<Point>)
    ensures
        r == direction(token@),
{
    proof {
        reveal_strlit("up");
        reveal_strlit("down");
        reveal_strlit("left");
        reveal_strlit("right");
        assert("up"@ =~= seq!['u', 'p']);
        assert("down"@ =~= seq!['d', 'o', 'w', 'n']);
        assert("left"@ =~= seq!['l', 'e', 'f', 't']);
        assert("right"@ =~= seq!['r', 'i', 'g', 'h', 't']);
    }
    if *token == String::from_str("up") {
        Some(Point { x: 0, y: -1 })
    } else if *token == String::from_str("down") {
        Some(Point { x: 0, y: 1 })
    } else if *token == String::from_str("left") {
        Some(Point { x: -1, y: 0 })
    } else if *token == String::from_str("right") {
        Some(Point { x: 1, y: 0 })
    } else {
        None
    }
}

/// Whether a room's board, where there is one, keeps its invariant.
pub open spec fn slot_ok(game: Option<DigSite>) -> bool {
    game matches Some(ds) ==> ds.wf()
}

/// Moves `player` by `delta` on the room's board.
///
/// Fails with `MissingBoard`, changing nothing, when the room has no board.
pub fn move_player(game: &mut Option<DigSite>, player: String, delta: Point) -> (r: Result<(), GameError>)
    requires
        slot_ok(*old(game)),
    ensures
        slot_ok(*final(game)),
        (*old(game)) is None ==> r == Err::<(), GameError>(GameError::MissingBoard) && *final(game) == *old(game),
        (*old(game)) is Some ==> r is Ok && (*final(game)) is Some && (*final(game))->Some_0@ == (DigSiteView {
            players: moved(
                (*old(game))->Some_0@.players,
                player@,
                delta,
                (*old(game))->Some_0@.width,
                (*old(game))->Some_0@.height,
            ),
            ..(*old(game))->Some_0@
        }),
{
    match game {
        Some(ds) => {
            ds.move_player(player, delta);
            Ok(())
        },
        None => Err(GameError::MissingBoard),
    }
}

/// Replaces the room's board with a freshly generated one of the rooms'
/// fixed size, hazard count and spawn point, with every member of `roster`
/// at the spawn point. The configuration always fits, so this succeeds.
pub fn new_game(game: &mut Option<DigSite>, rng: &mut StdRng, roster: &Vec<String>) -> (r: Result<(), GameError>)
    requires
        slot_ok(*old(game)),
    ensures
        slot_ok(*final(game)),
        r is Ok,
        (*final(game)) is Some && {
            let v = (*final(game))->Some_0@;
            &&& generated(v, board_size(), BONE_COUNT as nat, spawn_point())
            &&& forall|k: int| 0 <= k < v.players.len() ==> (#[trigger] v.players[k]).1 == spawn_point()
            &&& forall|id: Seq<char>| #[trigger] has_id(v.players, id) <==> listed(roster@, roster@.len() as int, id)
        },
{
    let size = Size { x: BOARD_WIDTH, y: BOARD_HEIGHT };
    let spawn = Point { x: SPAWN_X, y: SPAWN_Y };
    let mut names: Vec<String> = Vec::new();
    let mut k: usize = 0;
    while k < roster.len()
        invariant
            k <= roster@.len(),
            names@.len() == k,
            forall|j: int| 0 <= j < k ==> (#[trigger] names@[j])@ == roster@[j]@,
        decreases roster@.len() - k,
    {
        names.push(roster[k].clone());
        k += 1;
    }
    let ghost copied = names@;
    proof {
        assert forall|id: Seq<char>| listed(copied, copied.len() as int, id) == listed(roster@, roster@.len() as int, id) by {
            if listed(copied, copied.len() as int, id) {
                let j = choose|j: int| 0 <= j < copied.len() && (#[trigger] copied[j])@ == id;
                assert(roster@[j]@ == id);
            }
            if listed(roster@, roster@.len() as int, id) {
                let j = choose|j: int| 0 <= j < roster@.len() && (#[trigger] roster@[j])@ == id;
                assert(copied[j]@ == id);
            }
        }
    }
    proof {
        lemma_configuration_fits();
    }
    match DigSite::generate(rng, size, BONE_COUNT, spawn, Some(names)) {
        Ok(ds) => {
            *game = Some(ds);
            Ok(())
        },
        Err(e) => Err(e),
    }
}

/// Puts `player` on the room's board, generating the board first where the
/// room has none yet (the first player to join).
///
/// The rooms' configuration always fits, so a first join succeeds. Fails,
/// changing nothing, with `NoSpawn` when the room's board has no spawn
/// point.
pub fn init_user(game: &mut Option<DigSite>, rng: &mut StdRng, player: String) -> (r: Result<(), GameError>)
    requires
        slot_ok(*old(game)),
    ensures
        slot_ok(*final(game)),
        (*old(game)) is Some && (*old(game))->Some_0@.spawn is Some ==> r is Ok,
        (*old(game)) is Some && (*old(game))->Some_0@.spawn is None ==> r == Err::<(), GameError>(GameError::NoSpawn),
        (*old(game)) is None ==> r is Ok,
        r is Err ==> *final(game) == *old(game),
        (*old(game)) is None && r is Ok ==> (*final(game)) is Some && generated(
            (*final(game))->Some_0@,
            board_size(),
            BONE_COUNT as nat,
            spawn_point(),
        ) && (*final(game))->Some_0@.players == seq![(player@, spawn_point())],
        (*old(game)) is Some && (*old(game))->Some_0@.spawn is Some ==> (*final(game)) is Some && {
            let before = (*old(game))->Some_0@;
            &&& has_id(before.players, player@) ==> (*final(game))->Some_0@ == before
            &&& !has_id(before.players, player@) ==> (*final(game))->Some_0@ == (DigSiteView {
                players: before.players.push((player@, before.spawn->Some_0)),
                ..before
            })
        },
{
    if game.is_none() {
        let size = Size { x: BOARD_WIDTH, y: BOARD_HEIGHT };
        let spawn = Point { x: SPAWN_X, y: SPAWN_Y };
        proof {
            lemma_configuration_fits();
        }
        match DigSite::generate(rng, size, BONE_COUNT, spawn, None) {
            Ok(ds) => {
                proof {
                    if ds@.players.len() > 0 {
                        assert(has_id(ds@.players, ds@.players[0].0));
                    }
                }
                *game = Some(ds);
            },
            Err(e) => {
                return Err(e);
            },
        }
    }
    let ghost was_new = (*old(game)) is None;
    match game {
        Some(ds) => {
            let ghost before = ds@;
            let res = ds.add_player(player);
            proof {
                if was_new && res is Ok {
                    assert(!has_id(before.players, player@));
                    assert(ds@.players =~= seq![(player@, spawn_point())]);
                }
            }
            res
        },
        None => Err(GameError::MissingBoard),
    }
}

} // verus!
