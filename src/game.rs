use vstd::prelude::*;

verus! {

/// One played doubles match: team AB against team XY.
#[derive(Debug, Clone, PartialEq, Eq)]
pub struct Game {
    pub date: String,
    pub game_no: u32,
    pub player_a: String,
    pub player_b: String,
    pub points_ab: u8,
    pub player_x: String,
    pub player_y: String,
    pub points_xy: u8,
}

/// The mathematical value of a [`Game`]: its text fields as character sequences.
pub ghost struct GameView {
    pub date: Seq<char>,
    pub game_no: u32,
    pub player_a: Seq<char>,
    pub player_b: Seq<char>,
    pub points_ab: u8,
    pub player_x: Seq<char>,
    pub player_y: Seq<char>,
    pub points_xy: u8,
}

impl View for Game {
    type V = GameView;

    open spec fn view(&self) -> GameView {
        GameView {
            date: self.date@,
            game_no: self.game_no,
            player_a: self.player_a@,
            player_b: self.player_b@,
            points_ab: self.points_ab,
            player_x: self.player_x@,
            player_y: self.player_y@,
            points_xy: self.points_xy,
        }
    }
}

/// The views of a sequence of games.
pub open spec fn games_view(games: Seq<Game>) -> Seq<GameView> {
    games.map_values(|g: Game| g@)
}

impl Game {
    pub fn new(
        date: String,
        game_no: u32,
        player_a: String,
        player_b: String,
        points_ab: u8,
        player_x: String,
        player_y: String,
        points_xy: u8,
    ) -> (r: Game)
        ensures
            r@ == (GameView {
                date: date@,
                game_no,
                player_a: player_a@,
                player_b: player_b@,
                points_ab,
                player_x: player_x@,
                player_y: player_y@,
                points_xy,
            }),
    {
        Game { date, game_no, player_a, player_b, points_ab, player_x, player_y, points_xy }
    }
}

} // verus!
