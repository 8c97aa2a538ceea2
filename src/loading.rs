use vstd::prelude::*;
use crate::aliases::{strs, AliasMap};
use crate::game::{games_view, Game, GameView};
use crate::score_sheet::{load_games, sheet_of};

verus! {

/// A score-sheet file of a games directory: its path, and its contents where
/// it could be read.
pub struct GameSource {
    pub path: String,
    pub contents: Option<Vec<u8>>,
}

/// The games loaded from a games directory, and the files (or the directory)
/// that could not be loaded.
pub struct GamesLoadResult {
    pub games: Vec<Game>,
    pub failed_files: Vec<String>,
}

/// The games of one source, `None` where it could not be read or parsed.
pub open spec fn source_games(f: GameSource) -> Option<Seq<GameView>> {
    match f.contents {
        Some(d) => sheet_of(d@),
        None => None,
    }
}

/// The games of all sources that loaded, in source order.
pub open spec fn loaded_games(files: Seq<GameSource>) -> Seq<GameView>
    decreases files.len(),
{
    if files.len() == 0 {
        Seq::empty()
    } else {
        loaded_games(files.drop_last()) + match source_games(files.last()) {
            Some(gs) => gs,
            None => Seq::empty(),
        }
    }
}

/// The paths of the sources that did not load, in source order.
pub open spec fn failed_game_sources(files: Seq<GameSource>) -> Seq<Seq<char>>
    decreases files.len(),
{
    if files.len() == 0 {
        Seq::empty()
    } else if source_games(files.last()) is None {
        failed_game_sources(files.drop_last()).push(files.last().path@)
    } else {
        failed_game_sources(files.drop_last())
    }
}

impl GamesLoadResult {
    /// The result for a directory that could not be listed: no games, and the
    /// directory itself as the one failed source.
    pub fn unreadable_directory(dir: &str) -> (r: GamesLoadResult)
        ensures
            r.games@.len() == 0,
            r.failed_files@.len() == 1,
            r.failed_files@[0]@ == dir@,
    {
        let mut failed_files: Vec<String> = Vec::new();
        failed_files.push(dir.to_string());
        GamesLoadResult { games: Vec::new(), failed_files }
    }
}

/// Loads every source of a games directory: the games of the files that
/// parse as a whole, and the paths of those that do not.
pub fn collect_games(files: &Vec<GameSource>) -> (r: GamesLoadResult)
    ensures
        games_view(r.games@) == loaded_games(files@),
        strs(r.failed_files@) == failed_game_sources(files@),
{
    let mut games: Vec<Game> = Vec::new();
    let mut failed_files: Vec<String> = Vec::new();
    let mut i: usize = 0;
    while i < files.len()
        invariant
            i <= files.len(),
            games_view(games@) == loaded_games(files@.take(i as int)),
            strs(failed_files@) == failed_game_sources(files@.take(i as int)),
        decreases files.len() - i,
    {
        let f = &files[i];
        let loaded = match &f.contents {
            Some(d) => load_games(d.as_slice()),
            None => None,
        };
        proof {
            assert(files@.take(i + 1).drop_last() =~= files@.take(i as int));
            assert(files@.take(i + 1).last() == files@[i as int]);
        }
        match loaded {
            Some(gs) => {
                let mut gs = gs;
                let ghost before = games@;
                games.append(&mut gs);
                proof {
                    assert(games_view(games@) =~= games_view(before) + source_games(
                        files@[i as int],
                    )->0);
                }
            },
            None => {
                let ghost before = failed_files@;
                failed_files.push(f.path.clone());
                proof {
                    assert(strs(failed_files@) =~= strs(before).push(f.path@));
                    assert(games_view(games@) =~= loaded_games(files@.take(i + 1)));
                }
            },
        }
        i += 1;
    }
    proof {
        assert(files@.take(i as int) =~= files@);
    }
    GamesLoadResult { games, failed_files }
}

/// A source that failed to load contributes no game: taking it out of the
/// sources leaves the loaded games as they are.
pub proof fn law_failed_source_contributes_nothing(files: Vec<GameSource>, i: int)
    requires
        0 <= i < files@.len(),
        source_games(files@[i]) is None,
    ensures
        loaded_games(files@.remove(i)) == loaded_games(files@),
{
    lemma_remove_failed(files@, i);
}

proof fn lemma_remove_failed(files: Seq<GameSource>, i: int)
    requires
        0 <= i < files.len(),
        source_games(files[i]) is None,
    ensures
        loaded_games(files.remove(i)) == loaded_games(files),
    decreases files.len(),
{
    if i == files.len() - 1 {
        assert(files.remove(i) =~= files.drop_last());
        assert(loaded_games(files) =~= loaded_games(files.drop_last()));
    } else {
        assert(files.remove(i).drop_last() =~= files.drop_last().remove(i));
        assert(files.remove(i).last() == files.last());
        lemma_remove_failed(files.drop_last(), i);
    }
}

/// Whether `c` has the Unicode White_Space property.
pub open spec fn is_white_space(c: char) -> bool {
    ('\u{9}' <= c && c <= '\u{d}') || c == ' ' || c == '\u{85}' || c == '\u{a0}' || c
        == '\u{1680}' || ('\u{2000}' <= c && c <= '\u{200a}') || c == '\u{2028}' || c
        == '\u{2029}' || c == '\u{202f}' || c == '\u{205f}' || c == '\u{3000}'
}

/// `s` without its leading white space.
pub open spec fn trim_start_of(s: Seq<char>) -> Seq<char>
    decreases s.len(),
{
    if s.len() > 0 && is_white_space(s[0]) {
        trim_start_of(s.drop_first())
    } else {
        s
    }
}

/// `s` without its trailing white space.
pub open spec fn trim_end_of(s: Seq<char>) -> Seq<char>
    decreases s.len(),
{
    if s.len() > 0 && is_white_space(s.last()) {
        trim_end_of(s.drop_last())
    } else {
        s
    }
}

/// `s` without leading and trailing white space.
pub open spec fn trim_of(s: Seq<char>) -> Seq<char> {
    trim_end_of(trim_start_of(s))
}

/// A line without the carriage return that ended it, if one did.
pub open spec fn strip_cr(line: Seq<char>) -> Seq<char> {
    if line.len() > 0 && line.last() == '\r' {
        line.drop_last()
    } else {
        line
    }
}

/// The lines of `s`, the current one begun with `cur`: each line feed ends a
/// line (with a carriage return before it dropped); a last piece without a
/// line feed is a line unless it is empty.
pub open spec fn lines_from(s: Seq<char>, cur: Seq<char>) -> Seq<Seq<char>>
    decreases s.len(),
{
    if s.len() == 0 {
        if cur.len() == 0 {
            Seq::empty()
        } else {
            seq![cur]
        }
    } else if s[0] == '\n' {
        seq![strip_cr(cur)] + lines_from(s.drop_first(), Seq::empty())
    } else {
        lines_from(s.drop_first(), cur.push(s[0]))
    }
}

/// The lines of `s`.
pub open spec fn lines_of(s: Seq<char>) -> Seq<Seq<char>> {
    lines_from(s, Seq::empty())
}

/// Relies on `str::trim`: `s` without leading and trailing characters of
/// the Unicode White_Space property.
#[verifier::external_body]
fn trimmed(s: &str) -> (r: String)
    ensures
        r@ == trim_of(s@),
{
    s.trim().to_string()
}

/// Relies on `str::lines`: the lines of `s`, split at line feeds, a carriage
/// return before a line feed dropped, no empty line after a final line feed.
#[verifier::external_body]
fn lines_in(s: &str) -> (r: Vec<String>)
    ensures
        strs(r@) == lines_of(s@),
{
    s.lines().map(|l| l.to_string()).collect()
}

/// A line of an alias file as an alias: trimmed, and none where nothing is left.
pub open spec fn kept_line(line: Seq<char>) -> Option<Seq<char>> {
    if trim_of(line).len() == 0 {
        None
    } else {
        Some(trim_of(line))
    }
}

/// The aliases that a sequence of lines declares, in order.
pub open spec fn alias_lines(lines: Seq<Seq<char>>) -> Seq<Seq<char>>
    decreases lines.len(),
{
    if lines.len() == 0 {
        Seq::empty()
    } else {
        match kept_line(lines.last()) {
            Some(a) => alias_lines(lines.drop_last()).push(a),
            None => alias_lines(lines.drop_last()),
        }
    }
}

/// The line trimmed, or `None` where it holds only white space.
pub fn remove_empty_lines(line: &str) -> (r: Option<String>)
    ensures
        match r {
            Some(a) => kept_line(line@) == Some(a@),
            None => kept_line(line@) is None,
        },
{
    let trimmed = trimmed(line);
    if trimmed.as_str().is_empty() {
        None
    } else {
        Some(trimmed)
    }
}

/// The aliases that `lines` declare: each trimmed, blank ones dropped,
/// duplicates kept.
pub fn aliases_from_lines(lines: &Vec<String>) -> (r: Vec<String>)
    ensures
        strs(r@) == alias_lines(strs(lines@)),
{
    let mut out: Vec<String> = Vec::new();
    let mut i: usize = 0;
    while i < lines.len()
        invariant
            i <= lines.len(),
            strs(out@) == alias_lines(strs(lines@).take(i as int)),
        decreases lines.len() - i,
    {
        let ghost before = out@;
        proof {
            assert(strs(lines@).take(i + 1).drop_last() =~= strs(lines@).take(i as int));
        }
        match remove_empty_lines(lines[i].as_str()) {
            Some(a) => {
                out.push(a);
                proof {
                    assert(strs(out@) =~= strs(before).push(out@.last()@));
                }
            },
            None => {},
        }
        i += 1;
    }
    proof {
        assert(strs(lines@).take(i as int) =~= strs(lines@));
    }
    out
}

/// The aliases that the contents of an alias file declare.
pub fn parse_alias_lines(contents: &str) -> (r: Vec<String>)
    ensures
        strs(r@) == alias_lines(lines_of(contents@)),
{
    let lines = lines_in(contents);
    aliases_from_lines(&lines)
}

/// An alias file of an aliases directory: its path, the base name without
/// extension where there is one, and its text where it could be read.
pub struct AliasSource {
    pub path: String,
    pub stem: Option<String>,
    pub contents: Option<String>,
}

/// The canonical name and aliases of one alias file, `None` where its base
/// name is missing or empty, or it could not be read.
pub open spec fn alias_entry(f: AliasSource) -> Option<(Seq<char>, Seq<Seq<char>>)> {
    match (f.stem, f.contents) {
        (Some(name), Some(text)) => if name@.len() == 0 {
            None
        } else {
            Some((name@, alias_lines(lines_of(text@))))
        },
        _ => None,
    }
}

/// The canonical names and aliases of all files that loaded, a later file
/// replacing an earlier one of the same name.
pub open spec fn loaded_aliases(files: Seq<AliasSource>) -> Map<Seq<char>, Seq<Seq<char>>>
    decreases files.len(),
{
    if files.len() == 0 {
        Map::empty()
    } else {
        match alias_entry(files.last()) {
            Some(e) => loaded_aliases(files.drop_last()).insert(e.0, e.1),
            None => loaded_aliases(files.drop_last()),
        }
    }
}

/// The paths of the alias files that did not load, in order.
pub open spec fn failed_alias_sources(files: Seq<AliasSource>) -> Seq<Seq<char>>
    decreases files.len(),
{
    if files.len() == 0 {
        Seq::empty()
    } else if alias_entry(files.last()) is None {
        failed_alias_sources(files.drop_last()).push(files.last().path@)
    } else {
        failed_alias_sources(files.drop_last())
    }
}

/// The canonical name and aliases of one alias file, or its path where its
/// base name is missing or empty, or it could not be read.
pub fn load_alias_file(file: &AliasSource) -> (r: Result<(String, Vec<String>), String>)
    ensures
        match r {
            Ok((name, aliases)) => alias_entry(*file) == Some((name@, strs(aliases@))),
            Err(path) => alias_entry(*file) is None && path@ == file.path@,
        },
{
    match (&file.stem, &file.contents) {
        (Some(name), Some(text)) => if name.as_str().is_empty() {
            Err(file.path.clone())
        } else {
            Ok((name.clone(), parse_alias_lines(text.as_str())))
        },
        _ => Err(file.path.clone()),
    }
}

/// The aliases loaded from an aliases directory, and the files (or the
/// directory) that could not be loaded.
pub struct AliasesLoadResult {
    pub aliases: AliasMap,
    pub failed_files: Vec<String>,
}

impl AliasesLoadResult {
    /// The result for a directory that could not be listed: no aliases, and
    /// the directory itself as the one failed source.
    pub fn unreadable_directory(dir: &str) -> (r: AliasesLoadResult)
        ensures
            r.aliases.wf(),
            r.aliases@ == Map::<Seq<char>, Seq<Seq<char>>>::empty(),
            r.failed_files@.len() == 1,
            r.failed_files@[0]@ == dir@,
    {
        let mut failed_files: Vec<String> = Vec::new();
        failed_files.push(dir.to_string());
        AliasesLoadResult { aliases: AliasMap::new(), failed_files }
    }
}

/// Loads every file of an aliases directory: the name and aliases of each
/// file that loads, and the paths of those that do not.
pub fn collect_aliases(files: &Vec<AliasSource>) -> (r: AliasesLoadResult)
    ensures
        r.aliases.wf(),
        r.aliases@ == loaded_aliases(files@),
        strs(r.failed_files@) == failed_alias_sources(files@),
{
    let mut aliases = AliasMap::new();
    let mut failed_files: Vec<String> = Vec::new();
    let mut i: usize = 0;
    while i < files.len()
        invariant
            i <= files.len(),
            aliases.wf(),
            aliases@ == loaded_aliases(files@.take(i as int)),
            strs(failed_files@) == failed_alias_sources(files@.take(i as int)),
        decreases files.len() - i,
    {
        proof {
            assert(files@.take(i + 1).drop_last() =~= files@.take(i as int));
            assert(files@.take(i + 1).last() == files@[i as int]);
        }
        match load_alias_file(&files[i]) {
            Ok((name, list)) => {
                aliases.insert(name, list);
            },
            Err(path) => {
                let ghost before = failed_files@;
                failed_files.push(path);
                proof {
                    assert(strs(failed_files@) =~= strs(before).push(files@[i as int].path@));
                }
            },
        }
        i += 1;
    }
    proof {
        assert(files@.take(i as int) =~= files@);
    }
    AliasesLoadResult { aliases, failed_files }
}

/// Lines each followed by a line feed.
pub open spec fn joined_lines(lines: Seq<Seq<char>>) -> Seq<char>
    decreases lines.len(),
{
    if lines.len() == 0 {
        Seq::empty()
    } else {
        lines[0] + seq!['\n'] + joined_lines(lines.drop_first())
    }
}

/// An alias as written on a line of its own: not empty, no line feed in it,
/// and no white space at either end.
pub open spec fn clean_alias(a: Seq<char>) -> bool {
    &&& a.len() > 0
    &&& !a.contains('\n')
    &&& !is_white_space(a[0])
    &&& !is_white_space(a.last())
}

proof fn lemma_lines_from_line(l: Seq<char>, rest: Seq<char>, cur: Seq<char>)
    requires
        !l.contains('\n'),
    ensures
        lines_from(l + seq!['\n'] + rest, cur) == seq![strip_cr(cur + l)] + lines_from(
            rest,
            Seq::empty(),
        ),
    decreases l.len(),
{
    let s = l + seq!['\n'] + rest;
    if l.len() == 0 {
        assert(s[0] == '\n');
        assert(s.drop_first() =~= rest);
        assert(cur + l =~= cur);
    } else {
        assert(s[0] == l[0]);
        assert(l[0] != '\n') by {
            assert(l.contains(l[0]));
        }
        let ld = l.drop_first();
        assert(!ld.contains('\n')) by {
            if ld.contains('\n') {
                let j = choose|j: int| 0 <= j < ld.len() && ld[j] == '\n';
                assert(l[j + 1] == '\n');
                assert(l.contains('\n'));
            }
        }
        assert(s.drop_first() =~= ld + seq!['\n'] + rest);
        lemma_lines_from_line(ld, rest, cur.push(l[0]));
        assert(cur.push(l[0]) + ld =~= cur + l);
    }
}

proof fn lemma_lines_of_joined(lines: Seq<Seq<char>>)
    requires
        forall|i: int| 0 <= i < lines.len() ==> clean_alias(#[trigger] lines[i]),
    ensures
        lines_of(joined_lines(lines)) == lines,
    decreases lines.len(),
{
    if lines.len() > 0 {
        let l = lines[0];
        let rest = lines.drop_first();
        assert(clean_alias(l));
        assert forall|i: int| 0 <= i < rest.len() implies clean_alias(#[trigger] rest[i]) by {
            assert(rest[i] == lines[i + 1]);
        }
        lemma_lines_from_line(l, joined_lines(rest), Seq::empty());
        lemma_lines_of_joined(rest);
        assert(Seq::<char>::empty() + l =~= l);
        assert(l.last() != '\r');
        assert(seq![l] + rest =~= lines);
    }
}

proof fn lemma_alias_lines_clean(lines: Seq<Seq<char>>)
    requires
        forall|i: int| 0 <= i < lines.len() ==> clean_alias(#[trigger] lines[i]),
    ensures
        alias_lines(lines) == lines,
    decreases lines.len(),
{
    if lines.len() > 0 {
        let l = lines.last();
        assert(clean_alias(lines[lines.len() - 1]));
        assert(trim_start_of(l) == l);
        assert(trim_end_of(l) == l);
        let ld = lines.drop_last();
        assert forall|i: int| 0 <= i < ld.len() implies clean_alias(#[trigger] ld[i]) by {
            assert(ld[i] == lines[i]);
        }
        lemma_alias_lines_clean(ld);
        assert(ld.push(l) =~= lines);
    }
}

/// An alias file named after its player, whose text is a list of aliases,
/// each on a line of its own and without white space at its ends, loads as
/// that name with exactly those aliases, in order.
pub proof fn law_alias_file_declares_its_lines(file: AliasSource, aliases: Seq<Seq<char>>)
    requires
        file.stem is Some,
        file.stem->0@.len() > 0,
        file.contents is Some,
        file.contents->0@ == joined_lines(aliases),
        forall|i: int| 0 <= i < aliases.len() ==> clean_alias(#[trigger] aliases[i]),
    ensures
        alias_entry(file) == Some((file.stem->0@, aliases)),
{
    lemma_lines_of_joined(aliases);
    lemma_alias_lines_clean(aliases);
}

} // verus!
