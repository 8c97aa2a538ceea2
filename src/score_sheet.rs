use vstd::prelude::*;
use vstd::string::StrSliceExecFns;
use crate::aliases::{position_of, strs};
use crate::game::{games_view, Game, GameView};

verus! {

/// The records that csv's reader finds in `data` (the header row first), each
/// as its fields; `None` where the reader reports an error.
pub uninterp spec fn csv_records(data: Seq<u8>) -> Option<Seq<Seq<Seq<char>>>>;

/// The fields of each record as character sequences.
pub open spec fn records_view(records: Seq<Vec<String>>) -> Seq<Seq<Seq<char>>> {
    records.map_values(|r: Vec<String>| strs(r@))
}

/// Relies on csv's `Reader::records` (header handling off): the records of
/// `data` in order, each as its fields, or `None` where reading fails (bad
/// UTF-8, records of unequal length).
#[verifier::external_body]
fn read_records(data: &[u8]) -> (r: Option<Vec<Vec<String>>>)
    ensures
        match r {
            Some(v) => csv_records(data@) == Some(records_view(v@)),
            None => csv_records(data@) is None,
        },
{
    let mut reader = csv::ReaderBuilder::new().has_headers(false).from_reader(data);
    reader.records().map(|rec| rec.map(|fields| fields.iter().map(|f| f.to_string()).collect()))
        .collect::<Result<Vec<Vec<String>>, csv::Error>>().ok()
}

/// The characters of `s` in order.
fn chars_of(s: &str) -> (r: Vec<char>)
    ensures
        r@ == s@,
{
    let n = s.unicode_len();
    let mut r: Vec<char> = Vec::new();
    let mut i: usize = 0;
    while i < n
        invariant
            n == s@.len(),
            i <= n,
            r@ == s@.take(i as int),
        decreases n - i,
    {
        r.push(s.get_char(i));
        proof {
            assert(r@ =~= s@.take(i + 1));
        }
        i += 1;
    }
    proof {
        assert(s@.take(i as int) =~= s@);
    }
    r
}

/// The value of a digit in base 10 or 16.
pub open spec fn digit_value(c: char, radix: nat) -> Option<nat> {
    if '0' <= c && c <= '9' {
        Some((c as u32 - '0' as u32) as nat)
    } else if radix == 16 && 'a' <= c && c <= 'f' {
        Some((c as u32 - 'a' as u32 + 10) as nat)
    } else if radix == 16 && 'A' <= c && c <= 'F' {
        Some((c as u32 - 'A' as u32 + 10) as nat)
    } else {
        None
    }
}

/// The value of a run of digits, most significant first (0 for no digits).
pub open spec fn digits_value(s: Seq<char>, radix: nat) -> Option<nat>
    decreases s.len(),
{
    if s.len() == 0 {
        Some(0)
    } else {
        match (digits_value(s.drop_last(), radix), digit_value(s.last(), radix)) {
            (Some(v), Some(d)) => Some(v * radix + d),
            _ => None,
        }
    }
}

/// An unsigned number: an optional `+` and at least one digit.
pub open spec fn unsigned_value(s: Seq<char>, radix: nat) -> Option<nat> {
    let t = if s.len() > 0 && s[0] == '+' {
        s.drop_first()
    } else {
        s
    };
    if t.len() == 0 {
        None
    } else {
        digits_value(t, radix)
    }
}

/// The number a numeric field holds: hexadecimal after a `0x` prefix, else decimal.
pub open spec fn field_number(s: Seq<char>) -> Option<nat> {
    if s.len() >= 2 && s[0] == '0' && s[1] == 'x' {
        unsigned_value(s.skip(2), 16)
    } else {
        unsigned_value(s, 10)
    }
}

/// The number a field holds, where it is below `bound`.
pub open spec fn bounded_number(s: Seq<char>, bound: nat) -> Option<nat> {
    match field_number(s) {
        Some(v) => if v < bound {
            Some(v)
        } else {
            None
        },
        None => None,
    }
}

proof fn lemma_digits_prefix(s: Seq<char>, radix: nat, k: int)
    requires
        radix >= 1,
        0 <= k <= s.len(),
        digits_value(s, radix) is Some,
    ensures
        digits_value(s.take(k), radix) is Some,
        digits_value(s.take(k), radix)->0 <= digits_value(s, radix)->0,
    decreases s.len(),
{
    if k == s.len() {
        assert(s.take(k) =~= s);
    } else {
        let dl = s.drop_last();
        let v = digits_value(dl, radix)->0;
        let d = digit_value(s.last(), radix)->0;
        assert(v * radix >= v) by (nonlinear_arith)
            requires
                radix >= 1,
        ;
        lemma_digits_prefix(dl, radix, k);
        assert(dl.take(k) =~= s.take(k));
    }
}

fn digit_of(c: char, radix: u64) -> (r: Option<u64>)
    requires
        radix == 10 || radix == 16,
    ensures
        match r {
            Some(d) => digit_value(c, radix as nat) == Some(d as nat) && d < radix,
            None => digit_value(c, radix as nat) is None,
        },
{
    if '0' <= c && c <= '9' {
        Some((c as u32 - '0' as u32) as u64)
    } else if radix == 16 && 'a' <= c && c <= 'f' {
        Some((c as u32 - 'a' as u32 + 10) as u64)
    } else if radix == 16 && 'A' <= c && c <= 'F' {
        Some((c as u32 - 'A' as u32 + 10) as u64)
    } else {
        None
    }
}

/// The unsigned number in `chars` from `start` on, where it is below `bound`.
fn parse_unsigned(chars: &Vec<char>, start: usize, radix: u64, bound: u64) -> (r: Option<u64>)
    requires
        start <= chars.len(),
        radix == 10 || radix == 16,
        1 <= bound <= 0x1_0000_0000,
    ensures
        match r {
            Some(v) => unsigned_value(chars@.skip(start as int), radix as nat) == Some(v as nat)
                && v < bound,
            None => match unsigned_value(chars@.skip(start as int), radix as nat) {
                Some(v) => v >= bound,
                None => true,
            },
        },
{
    let ghost s = chars@.skip(start as int);
    let mut i: usize = start;
    if i < chars.len() && chars[i] == '+' {
        i += 1;
    }
    let begin = i;
    let ghost t = chars@.subrange(begin as int, chars.len() as int);
    proof {
        if s.len() > 0 && s[0] == '+' {
            assert(s.drop_first() =~= t);
        } else {
            assert(s =~= t);
        }
    }
    if begin == chars.len() {
        return None;
    }
    assert(unsigned_value(s, radix as nat) == digits_value(t, radix as nat));
    let mut v: u64 = 0;
    while i < chars.len()
        invariant
            begin <= i <= chars.len(),
            begin < chars.len(),
            t == chars@.subrange(begin as int, chars.len() as int),
            unsigned_value(chars@.skip(start as int), radix as nat) == digits_value(t, radix as nat),
            radix == 10 || radix == 16,
            1 <= bound <= 0x1_0000_0000,
            v < bound,
            digits_value(t.take(i - begin), radix as nat) == Some(v as nat),
        decreases chars.len() - i,
    {
        let ghost k = (i - begin) as int;
        proof {
            assert(t.take(k + 1).drop_last() =~= t.take(k));
            assert(t.take(k + 1).last() == chars@[i as int]);
        }
        match digit_of(chars[i], radix) {
            None => {
                proof {
                    assert(digits_value(t.take(k + 1), radix as nat) is None);
                    if digits_value(t, radix as nat) is Some {
                        lemma_digits_prefix(t, radix as nat, k + 1);
                    }
                    assert(digits_value(t, radix as nat) is None);
                }
                return None;
            },
            Some(d) => {
                assert(v * radix <= 0x1_0000_0000 * 16) by (nonlinear_arith)
                    requires
                        v < 0x1_0000_0000,
                        radix <= 16,
                ;
                let next = v * radix + d;
                if next >= bound {
                    proof {
                        assert(digits_value(t.take(k + 1), radix as nat) == Some(next as nat));
                        if digits_value(t, radix as nat) is Some {
                            lemma_digits_prefix(t, radix as nat, k + 1);
                        }
                    }
                    return None;
                }
                v = next;
            },
        }
        i += 1;
    }
    proof {
        assert(t.take(i - begin) =~= t);
    }
    Some(v)
}

/// The number a numeric field holds, where it is below `bound`.
pub fn parse_number(field: &String, bound: u64) -> (r: Option<u64>)
    requires
        1 <= bound <= 0x1_0000_0000,
    ensures
        match r {
            Some(v) => bounded_number(field@, bound as nat) == Some(v as nat),
            None => bounded_number(field@, bound as nat) is None,
        },
{
    let chars = chars_of(field.as_str());
    if chars.len() >= 2 && chars[0] == '0' && chars[1] == 'x' {
        parse_unsigned(&chars, 2, 16, bound)
    } else {
        proof {
            assert(chars@.skip(0) =~= chars@);
        }
        parse_unsigned(&chars, 0, 10, bound)
    }
}

/// Whether `i` is the one column of `header` named `name`.
pub open spec fn sole_column(header: Seq<Seq<char>>, name: Seq<char>, i: int) -> bool {
    &&& 0 <= i < header.len()
    &&& header[i] == name
    &&& forall|j: int| 0 <= j < header.len() && j != i ==> header[j] != name
}

/// The column of `header` named `name`; none where no column or several
/// columns have that name (a field named twice is refused).
pub open spec fn column(header: Seq<Seq<char>>, name: Seq<char>) -> Option<int> {
    if exists|i: int| sole_column(header, name, i) {
        Some(choose|i: int| sole_column(header, name, i))
    } else {
        None
    }
}

/// The field of `row` under the column named `name`.
pub open spec fn field(header: Seq<Seq<char>>, row: Seq<Seq<char>>, name: Seq<char>) -> Option<
    Seq<char>,
> {
    match column(header, name) {
        Some(i) => if i < row.len() {
            Some(row[i])
        } else {
            None
        },
        None => None,
    }
}

/// The game that a data row describes under `header`, where every column is
/// present and every numeric field holds a number of its type.
pub open spec fn game_of(header: Seq<Seq<char>>, row: Seq<Seq<char>>) -> Option<GameView> {
    let date = field(header, row, "Date"@);
    let game_no = field(header, row, "GameNo"@);
    let a = field(header, row, "A"@);
    let b = field(header, row, "B"@);
    let pts_ab = field(header, row, "PtsAB"@);
    let x = field(header, row, "X"@);
    let y = field(header, row, "Y"@);
    let pts_xy = field(header, row, "PtsXY"@);
    if date is Some && game_no is Some && a is Some && b is Some && pts_ab is Some && x is Some
        && y is Some && pts_xy is Some && bounded_number(game_no->0, 0x1_0000_0000) is Some
        && bounded_number(pts_ab->0, 256) is Some && bounded_number(pts_xy->0, 256) is Some {
        Some(
            GameView {
                date: date->0,
                game_no: bounded_number(game_no->0, 0x1_0000_0000)->0 as u32,
                player_a: a->0,
                player_b: b->0,
                points_ab: bounded_number(pts_ab->0, 256)->0 as u8,
                player_x: x->0,
                player_y: y->0,
                points_xy: bounded_number(pts_xy->0, 256)->0 as u8,
            },
        )
    } else {
        None
    }
}

/// The games of a score sheet given as its records, header first: one per
/// data row, or `None` where any data row is not a valid game.
pub open spec fn sheet_games(records: Seq<Seq<Seq<char>>>) -> Option<Seq<GameView>> {
    if records.len() == 0 {
        Some(Seq::empty())
    } else {
        let header = records[0];
        let rows = records.drop_first();
        if forall|i: int| 0 <= i < rows.len() ==> (#[trigger] game_of(header, rows[i])) is Some {
            Some(rows.map_values(|r: Seq<Seq<char>>| game_of(header, r)->0))
        } else {
            None
        }
    }
}

/// The games of the score-sheet file with contents `data`.
pub open spec fn sheet_of(data: Seq<u8>) -> Option<Seq<GameView>> {
    match csv_records(data) {
        Some(records) => sheet_games(records),
        None => None,
    }
}

fn find_column(header: &Vec<String>, name: &str) -> (r: Option<usize>)
    ensures
        match r {
            Some(i) => column(strs(header@), name@) == Some(i as int) && i < header.len(),
            None => column(strs(header@), name@) is None,
        },
{
    let key = name.to_string();
    let ghost h = strs(header@);
    match position_of(header, &key) {
        None => {
            proof {
                if exists|i: int| sole_column(h, name@, i) {
                    let c = choose|c: int| sole_column(h, name@, c);
                    assert(h[c] == name@);
                    assert(h.contains(name@));
                }
            }
            None
        },
        Some(i) => {
            let mut j: usize = i + 1;
            while j < header.len()
                invariant
                    i < j <= header.len(),
                    h == strs(header@),
                    key@ == name@,
                    h[i as int] == name@,
                    forall|k: int| 0 <= k < j && k != i ==> h[k] != name@,
                decreases header.len() - j,
            {
                if header[j] == key {
                    proof {
                        if exists|c: int| sole_column(h, name@, c) {
                            let c = choose|c: int| sole_column(h, name@, c);
                            assert(h[j as int] == name@);
                        }
                    }
                    return None;
                }
                j += 1;
            }
            proof {
                assert(sole_column(h, name@, i as int));
                let c = choose|c: int| sole_column(h, name@, c);
                if c != i {
                    assert(h[i as int] == name@);
                }
            }
            Some(i)
        },
    }
}

fn field_of(header: &Vec<String>, row: &Vec<String>, name: &str) -> (r: Option<String>)
    ensures
        match r {
            Some(f) => field(strs(header@), strs(row@), name@) == Some(f@),
            None => field(strs(header@), strs(row@), name@) is None,
        },
{
    match find_column(header, name) {
        Some(i) => if i < row.len() {
            Some(row[i].clone())
        } else {
            None
        },
        None => None,
    }
}

/// The game that `row` describes under `header`, if it is a valid one.
pub fn game_from_record(header: &Vec<String>, row: &Vec<String>) -> (r: Option<Game>)
    ensures
        match r {
            Some(g) => game_of(strs(header@), strs(row@)) == Some(g@),
            None => game_of(strs(header@), strs(row@)) is None,
        },
{
    let date = field_of(header, row, "Date");
    let game_no = field_of(header, row, "GameNo");
    let a = field_of(header, row, "A");
    let b = field_of(header, row, "B");
    let pts_ab = field_of(header, row, "PtsAB");
    let x = field_of(header, row, "X");
    let y = field_of(header, row, "Y");
    let pts_xy = field_of(header, row, "PtsXY");
    match (date, game_no, a, b, pts_ab, x, y, pts_xy) {
        (Some(date), Some(game_no), Some(a), Some(b), Some(pts_ab), Some(x), Some(y), Some(pts_xy)) => {
            let n = parse_number(&game_no, 0x1_0000_0000);
            let pa = parse_number(&pts_ab, 256);
            let px = parse_number(&pts_xy, 256);
            match (n, pa, px) {
                (Some(n), Some(pa), Some(px)) => Some(
                    Game::new(date, n as u32, a, b, pa as u8, x, y, px as u8),
                ),
                _ => None,
            }
        },
        _ => None,
    }
}

/// The games of a score sheet given as its records, header first; `None`
/// where any data row is not a valid game, so that no row of such a sheet
/// is kept.
pub fn games_from_records(records: &Vec<Vec<String>>) -> (r: Option<Vec<Game>>)
    ensures
        match r {
            Some(gs) => sheet_games(records_view(records@)) == Some(games_view(gs@)),
            None => sheet_games(records_view(records@)) is None,
        },
{
    let ghost rv = records_view(records@);
    let mut out: Vec<Game> = Vec::new();
    if records.len() == 0 {
        proof {
            assert(games_view(out@) =~= Seq::<GameView>::empty());
        }
        return Some(out);
    }
    let header = &records[0];
    let ghost rows = rv.drop_first();
    let mut i: usize = 1;
    while i < records.len()
        invariant
            1 <= i <= records.len(),
            rv == records_view(records@),
            rows == rv.drop_first(),
            header == &records@[0],
            out.len() == i - 1,
            forall|k: int|
                0 <= k < i - 1 ==> Some((#[trigger] out@[k])@) == game_of(rv[0], rows[k]),
        decreases records.len() - i,
    {
        match game_from_record(header, &records[i]) {
            Some(g) => {
                out.push(g);
            },
            None => {
                proof {
                    assert(game_of(rv[0], rows[i - 1]) is None);
                }
                return None;
            },
        }
        i += 1;
    }
    proof {
        assert forall|k: int| 0 <= k < rows.len() implies (#[trigger] game_of(rv[0], rows[k])) is Some by {
            assert(Some(out@[k]@) == game_of(rv[0], rows[k]));
        }
        assert(games_view(out@) =~= rows.map_values(|r: Seq<Seq<char>>| game_of(rv[0], r)->0));
    }
    Some(out)
}

/// The games of a score-sheet file with contents `data`: every data row
/// becomes a game, or, where reading the file or any row fails, none does.
pub fn load_games(data: &[u8]) -> (r: Option<Vec<Game>>)
    ensures
        match r {
            Some(gs) => sheet_of(data@) == Some(games_view(gs@)),
            None => sheet_of(data@) is None,
        },
{
    match read_records(data) {
        Some(records) => games_from_records(&records),
        None => None,
    }
}

} // verus!
