use vstd::prelude::*;
use crate::aliases::{lemma_no_duplicates_push, position_of, strs};
use crate::game::{games_view, Game, GameView};

verus! {

/// The four player names of a game.
pub open spec fn players_of(g: GameView) -> Set<Seq<char>> {
    set![g.player_a, g.player_b, g.player_x, g.player_y]
}

/// Every player name that occurs in any of the games.
pub open spec fn identities(games: Seq<GameView>) -> Set<Seq<char>> {
    Set::new(|n: Seq<char>| exists|i: int| 0 <= i < games.len() && #[trigger] players_of(games[i]).contains(n))
}

/// Adds `name` to `names` unless it is there already.
fn add_name(names: &mut Vec<String>, name: &String)
    requires
        strs(old(names)@).no_duplicates(),
    ensures
        strs(final(names)@).no_duplicates(),
        strs(final(names)@).to_set() == strs(old(names)@).to_set().insert(name@),
{
    let ghost before = strs(names@);
    match position_of(names, name) {
        Some(i) => {
            proof {
                assert(before[i as int] == name@);
                assert(before.to_set().insert(name@) =~= before.to_set());
            }
        },
        None => {
            names.push(name.clone());
            proof {
                let after = strs(names@);
                assert(after =~= before.push(name@));
                assert(after.to_set() =~= before.to_set().insert(name@)) by {
                    assert forall|n: Seq<char>| after.contains(n) implies before.contains(n) || n
                        == name@ by {
                        let k = choose|k: int| 0 <= k < after.len() && after[k] == n;
                        if k < before.len() {
                            assert(before[k] == n);
                        }
                    }
                    assert forall|n: Seq<char>| before.contains(n) implies after.contains(n) by {
                        let k = choose|k: int| 0 <= k < before.len() && before[k] == n;
                        assert(after[k] == n);
                    }
                    assert(after[after.len() - 1] == name@);
                }
                lemma_no_duplicates_push(before, name@);
            }
        },
    }
}

/// The distinct player names of all games, each once, in order of first
/// appearance.
pub fn collect_identities(games: &Vec<Game>) -> (r: Vec<String>)
    ensures
        strs(r@).no_duplicates(),
        strs(r@).to_set() == identities(games_view(games@)),
{
    let mut names: Vec<String> = Vec::new();
    let ghost gv = games_view(games@);
    let mut i: usize = 0;
    proof {
        assert(strs(names@).to_set() =~= identities(gv.take(0)));
    }
    while i < games.len()
        invariant
            i <= games.len(),
            gv == games_view(games@),
            strs(names@).no_duplicates(),
            strs(names@).to_set() == identities(gv.take(i as int)),
        decreases games.len() - i,
    {
        let g = &games[i];
        add_name(&mut names, &g.player_a);
        add_name(&mut names, &g.player_b);
        add_name(&mut names, &g.player_x);
        add_name(&mut names, &g.player_y);
        proof {
            let prev = gv.take(i as int);
            let next = gv.take(i + 1);
            assert(next[i as int] == g@);
            assert forall|n: Seq<char>| identities(next).contains(n) implies identities(
                prev,
            ).contains(n) || players_of(g@).contains(n) by {
                let k = choose|k: int| 0 <= k < next.len() && #[trigger] players_of(next[k]).contains(n);
                if k < i {
                    assert(prev[k] == next[k]);
                    assert(players_of(prev[k]).contains(n));
                }
            }
            assert forall|n: Seq<char>| identities(prev).contains(n) implies identities(
                next,
            ).contains(n) by {
                let k = choose|k: int| 0 <= k < prev.len() && #[trigger] players_of(prev[k]).contains(n);
                assert(next[k] == prev[k]);
                assert(players_of(next[k]).contains(n));
            }
            assert forall|n: Seq<char>| players_of(g@).contains(n) implies identities(
                next,
            ).contains(n) by {
                assert(players_of(next[i as int]).contains(n));
            }
            assert(strs(names@).to_set() =~= identities(next));
        }
        i += 1;
    }
    proof {
        assert(gv.take(i as int) =~= gv);
    }
    names
}

} // verus!
