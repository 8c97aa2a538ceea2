use vstd::prelude::*;
use crate::aliases::{strs, AliasIndex, AliasMap};
use crate::game::{games_view, Game, GameView};

verus! {

/// `m` with each of `aliases` made to stand for `name`, in list order.
pub open spec fn add_aliases(
    m: Map<Seq<char>, Seq<char>>,
    aliases: Seq<Seq<char>>,
    name: Seq<char>,
) -> Map<Seq<char>, Seq<char>>
    decreases aliases.len(),
{
    if aliases.len() == 0 {
        m
    } else {
        add_aliases(m, aliases.drop_last(), name).insert(aliases.last(), name)
    }
}

/// The reverse index of parallel name and alias-list sequences: every alias
/// of every entry maps to its entry's name, a later entry winning a collision.
pub open spec fn index_of(names: Seq<Seq<char>>, lists: Seq<Seq<Seq<char>>>) -> Map<
    Seq<char>,
    Seq<char>,
>
    decreases names.len(),
{
    if names.len() == 0 || lists.len() == 0 {
        Map::empty()
    } else {
        add_aliases(index_of(names.drop_last(), lists.drop_last()), lists.last(), names.last())
    }
}

/// What a player name resolves to: its canonical name if it is an alias,
/// else the name itself.
pub open spec fn resolve(index: Map<Seq<char>, Seq<char>>, player: Seq<char>) -> Seq<char> {
    if index.contains_key(player) {
        index[player]
    } else {
        player
    }
}

/// A game with its four player names resolved.
pub open spec fn normalize_game(g: GameView, index: Map<Seq<char>, Seq<char>>) -> GameView {
    GameView {
        player_a: resolve(index, g.player_a),
        player_b: resolve(index, g.player_b),
        player_x: resolve(index, g.player_x),
        player_y: resolve(index, g.player_y),
        ..g
    }
}

pub open spec fn normalize_all(games: Seq<GameView>, index: Map<Seq<char>, Seq<char>>) -> Seq<
    GameView,
> {
    games.map_values(|g: GameView| normalize_game(g, index))
}

/// Builds the reverse index of `aliases`: each alias of each canonical name
/// maps to that name; where two names declare one alias, the name inserted
/// later into `aliases` wins.
pub fn create_alias_lookup(aliases: &AliasMap) -> (r: AliasIndex)
    requires
        aliases.wf(),
    ensures
        r.wf(),
        r@ == index_of(aliases.name_seq(), aliases.list_seq()),
{
    let mut index = AliasIndex::new();
    let entries = aliases.entries();
    let ghost names = aliases.name_seq();
    let ghost lists = aliases.list_seq();
    let mut i: usize = 0;
    while i < entries.len()
        invariant
            entries.len() == names.len(),
            entries.len() == lists.len(),
            forall|k: int|
                0 <= k < entries.len() ==> (#[trigger] entries@[k]).0@ == names[k] && strs(
                    entries@[k].1@,
                ) == lists[k],
            i <= entries.len(),
            index.wf(),
            index@ == index_of(names.take(i as int), lists.take(i as int)),
        decreases entries.len() - i,
    {
        let (name, list) = entries[i];
        let ghost base = index@;
        let mut j: usize = 0;
        while j < list.len()
            invariant
                j <= list.len(),
                index.wf(),
                index@ == add_aliases(base, strs(list@).take(j as int), name@),
            decreases list.len() - j,
        {
            index.insert(list[j].clone(), name.clone());
            proof {
                assert(strs(list@).take(j + 1).drop_last() =~= strs(list@).take(j as int));
            }
            j += 1;
        }
        proof {
            assert(strs(list@).take(list.len() as int) =~= strs(list@));
            assert(names.take(i + 1).drop_last() =~= names.take(i as int));
            assert(lists.take(i + 1).drop_last() =~= lists.take(i as int));
            assert(entries@[i as int].0@ == names[i as int]);
        }
        i += 1;
    }
    proof {
        assert(names.take(i as int) =~= names);
        assert(lists.take(i as int) =~= lists);
    }
    index
}

/// The canonical name of `player` if it is a known alias, else `player` itself.
pub fn convert_if_alias(player: &str, alias_lookup: &AliasIndex) -> (r: String)
    requires
        alias_lookup.wf(),
    ensures
        r@ == resolve(alias_lookup@, player@),
{
    let p = player.to_string();
    match alias_lookup.get(&p) {
        Some(name) => name.clone(),
        None => p,
    }
}

fn normalize_one(game: &Game, alias_lookup: &AliasIndex) -> (r: Game)
    requires
        alias_lookup.wf(),
    ensures
        r@ == normalize_game(game@, alias_lookup@),
{
    Game {
        date: game.date.clone(),
        game_no: game.game_no,
        player_a: convert_if_alias(game.player_a.as_str(), alias_lookup),
        player_b: convert_if_alias(game.player_b.as_str(), alias_lookup),
        points_ab: game.points_ab,
        player_x: convert_if_alias(game.player_x.as_str(), alias_lookup),
        player_y: convert_if_alias(game.player_y.as_str(), alias_lookup),
        points_xy: game.points_xy,
    }
}

/// Replaces each player name of each game by what it resolves to in
/// `alias_lookup`; the games keep their order and their other fields.
pub fn normalize_with_lookup(games: Vec<Game>, alias_lookup: &AliasIndex) -> (r: Vec<Game>)
    requires
        alias_lookup.wf(),
    ensures
        games_view(r@) == normalize_all(games_view(games@), alias_lookup@),
{
    let mut out: Vec<Game> = Vec::new();
    let mut i: usize = 0;
    while i < games.len()
        invariant
            i <= games.len(),
            alias_lookup.wf(),
            out.len() == i,
            forall|k: int|
                0 <= k < i ==> (#[trigger] out@[k])@ == normalize_game(
                    games@[k]@,
                    alias_lookup@,
                ),
        decreases games.len() - i,
    {
        let g = normalize_one(&games[i], alias_lookup);
        out.push(g);
        i += 1;
    }
    proof {
        assert(games_view(out@) =~= normalize_all(games_view(games@), alias_lookup@));
    }
    out
}

/// Normalises the player names of `games` against the reverse index of `aliases`.
pub fn normalize_games(games: Vec<Game>, aliases: &AliasMap) -> (r: Vec<Game>)
    requires
        aliases.wf(),
    ensures
        games_view(r@) == normalize_all(
            games_view(games@),
            index_of(aliases.name_seq(), aliases.list_seq()),
        ),
{
    let alias_lookup = create_alias_lookup(aliases);
    normalize_with_lookup(games, &alias_lookup)
}

proof fn lemma_add_aliases(m: Map<Seq<char>, Seq<char>>, aliases: Seq<Seq<char>>, name: Seq<char>)
    ensures
        forall|a: Seq<char>| aliases.contains(a) ==> add_aliases(m, aliases, name).contains_key(a),
        forall|k: Seq<char>| m.contains_key(k) ==> add_aliases(m, aliases, name).contains_key(k),
        forall|k: Seq<char>|
            #[trigger] add_aliases(m, aliases, name).contains_key(k) ==> add_aliases(
                m,
                aliases,
                name,
            )[k] == name || (m.contains_key(k) && add_aliases(m, aliases, name)[k] == m[k]),
    decreases aliases.len(),
{
    if aliases.len() > 0 {
        let ad = aliases.drop_last();
        let rd = add_aliases(m, ad, name);
        let r = add_aliases(m, aliases, name);
        lemma_add_aliases(m, ad, name);
        assert(r == rd.insert(aliases.last(), name));
        assert forall|a: Seq<char>| aliases.contains(a) implies r.contains_key(a) by {
            let j = choose|j: int| 0 <= j < aliases.len() && aliases[j] == a;
            if j < aliases.len() - 1 {
                assert(ad[j] == a);
                assert(ad.contains(a));
            }
        }
        assert forall|k: Seq<char>| #[trigger]
            r.contains_key(k) implies r[k] == name || (m.contains_key(k) && r[k] == m[k]) by {
            if k != aliases.last() {
                assert(rd.contains_key(k));
            }
        }
    }
}

proof fn lemma_index_of(names: Seq<Seq<char>>, lists: Seq<Seq<Seq<char>>>)
    requires
        names.len() == lists.len(),
    ensures
        forall|i: int, a: Seq<char>|
            0 <= i < lists.len() && #[trigger] lists[i].contains(a) ==> index_of(
                names,
                lists,
            ).contains_key(a),
        forall|k: Seq<char>|
            #[trigger] index_of(names, lists).contains_key(k) ==> names.contains(
                index_of(names, lists)[k],
            ),
    decreases names.len(),
{
    if names.len() > 0 {
        let nd = names.drop_last();
        let ld = lists.drop_last();
        lemma_index_of(nd, ld);
        lemma_add_aliases(index_of(nd, ld), lists.last(), names.last());
        assert forall|i: int, a: Seq<char>|
            0 <= i < lists.len() && #[trigger] lists[i].contains(a) implies index_of(
                names,
                lists,
            ).contains_key(a) by {
            if i < lists.len() - 1 {
                assert(ld[i] == lists[i]);
            }
        }
        assert forall|k: Seq<char>| #[trigger]
            index_of(names, lists).contains_key(k) implies names.contains(
            index_of(names, lists)[k],
        ) by {
            let v = index_of(names, lists)[k];
            if v == names.last() {
                assert(names[names.len() - 1] == v);
            } else {
                let j = choose|j: int| 0 <= j < nd.len() && nd[j] == v;
                assert(names[j] == v);
            }
        }
    }
}

/// Every alias declared for any canonical name of `m` has an entry in the
/// index built from `m`, and every entry of that index leads to some
/// canonical name of `m` (not necessarily the one that declared it, where
/// two names declare the same alias).
pub proof fn law_index_covers_aliases(m: AliasMap)
    requires
        m.wf(),
    ensures
        forall|name: Seq<char>, a: Seq<char>|
            m@.contains_key(name) && #[trigger] m@[name].contains(a) ==> index_of(
                m.name_seq(),
                m.list_seq(),
            ).contains_key(a),
        forall|a: Seq<char>| #[trigger]
            index_of(m.name_seq(), m.list_seq()).contains_key(a) ==> m@.contains_key(
                index_of(m.name_seq(), m.list_seq())[a],
            ),
{
    m.lemma_view();
    lemma_index_of(m.name_seq(), m.list_seq());
    assert forall|name: Seq<char>, a: Seq<char>|
        m@.contains_key(name) && #[trigger] m@[name].contains(a) implies index_of(
        m.name_seq(),
        m.list_seq(),
    ).contains_key(a) by {
        let i = choose|i: int| 0 <= i < m.name_seq().len() && m.name_seq()[i] == name;
        assert(m.list_seq()[i].contains(a));
    }
    assert forall|a: Seq<char>| #[trigger]
        index_of(m.name_seq(), m.list_seq()).contains_key(a) implies m@.contains_key(
        index_of(m.name_seq(), m.list_seq())[a],
    ) by {
        let v = index_of(m.name_seq(), m.list_seq())[a];
        let i = choose|i: int| 0 <= i < m.name_seq().len() && m.name_seq()[i] == v;
    }
}

/// Normalising twice against the same index gives what normalising once
/// gives, provided no name that the index leads to is itself a key of it.
pub proof fn law_normalize_idempotent(games: Vec<Game>, index: AliasIndex)
    requires
        forall|k: Seq<char>| #[trigger]
            index@.contains_key(k) ==> !index@.contains_key(index@[k]),
    ensures
        normalize_all(normalize_all(games_view(games@), index@), index@)
            == normalize_all(games_view(games@), index@),
{
    let once = normalize_all(games_view(games@), index@);
    assert(normalize_all(once, index@) =~= once);
}

/// A game none of whose player names is a key of the index comes out of
/// normalisation unchanged.
pub proof fn law_normalize_passes_unknown_names(game: Game, index: AliasIndex)
    requires
        !index@.contains_key(game.player_a@),
        !index@.contains_key(game.player_b@),
        !index@.contains_key(game.player_x@),
        !index@.contains_key(game.player_y@),
    ensures
        normalize_game(game@, index@) == game@,
{
}

} // verus!
