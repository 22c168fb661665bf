//! What stands for an emulator, or a game, where the screens show art.
use vstd::prelude::*;

use crate::gui::vault::{Game, GameView};
use crate::scan::emulator::text::{chars_of, opt_view, string_from};
use crate::scan::emulator::{all_apps, app_name, App};

verus! {

pub open spec fn console_of(app: App) -> Seq<char> {
    match app {
        App::DuckStation => "PlayStation"@,
        App::Pcsx2 => "PlayStation 2"@,
        App::Rpcs3 => "PlayStation 3"@,
        App::ShadPs4 => "PlayStation 4"@,
        App::Ppsspp => "PSP"@,
        App::Eden => "Nintendo Switch"@,
        App::Sudachi => "Nintendo Switch"@,
        App::Xenia => "Xbox 360"@,
    }
}

/// The console the emulator runs games from.
///
/// This is what turns a list of eight unfamiliar words into something a person can scan: most
/// people looking for their saves know they played a PS2 game, not that PCSX2 is the thing that
/// runs it.
pub fn console(app: App) -> (r: &'static str)
    ensures
        r@ == console_of(app),
{
    match app {
        App::DuckStation => "PlayStation",
        App::Pcsx2 => "PlayStation 2",
        App::Rpcs3 => "PlayStation 3",
        App::ShadPs4 => "PlayStation 4",
        App::Ppsspp => "PSP",
        App::Eden => "Nintendo Switch",
        App::Sudachi => "Nintendo Switch",
        App::Xenia => "Xbox 360",
    }
}

/// What `char::is_alphanumeric` says of a character: a Unicode letter or number.
pub uninterp spec fn unicode_alphanumeric(c: char) -> bool;

/// What `char::to_uppercase` makes of a character, which may be several characters.
pub uninterp spec fn unicode_uppercase(c: char) -> Seq<char>;

/// `char::is_alphanumeric`.
///
/// Claimed: the answer is the named Unicode property of the character, and nothing more.
#[verifier::external_body]
fn is_alphanumeric(c: char) -> (r: bool)
    ensures
        r == unicode_alphanumeric(c),
{
    c.is_alphanumeric()
}

/// `char::to_uppercase`, collected into a string.
///
/// Claimed: the characters are the named uppercase mapping of the character, and nothing more.
#[verifier::external_body]
fn uppercase(c: char) -> (r: String)
    ensures
        r@ == unicode_uppercase(c),
{
    c.to_uppercase().collect::<String>()
}

/// What the tile of a game in the inventory shows.
#[derive(Clone, Debug, PartialEq, Eq)]
pub enum GameTile {
    /// The emulator's own logo, which is bundled and needs no network.
    Logo(App),
    /// The game's initial: a placeholder, in the shape a cover will take once there is one.
    Initial(String),
}

pub enum GameTileView {
    Logo(App),
    Initial(Seq<char>),
}

impl View for GameTile {
    type V = GameTileView;

    open spec fn view(&self) -> GameTileView {
        match self {
            GameTile::Logo(app) => GameTileView::Logo(*app),
            GameTile::Initial(s) => GameTileView::Initial(s@),
        }
    }
}

/// The first emulator, from the `k`-th on, with this name.
pub open spec fn app_named(name: Seq<char>, k: int) -> Option<App>
    decreases 8 - k,
{
    if k >= 8 || k < 0 {
        None
    } else if app_name(all_apps()[k]) == name {
        Some(all_apps()[k])
    } else {
        app_named(name, k + 1)
    }
}

/// Where the first letter or number of the name is, from `k` on.
pub open spec fn first_alphanumeric(name: Seq<char>, k: int) -> Option<int>
    decreases name.len() - k,
{
    if k >= name.len() || k < 0 {
        None
    } else if unicode_alphanumeric(name[k]) {
        Some(k)
    } else {
        first_alphanumeric(name, k + 1)
    }
}

pub open spec fn tile_of(game: GameView) -> GameTileView {
    match game.emulator {
        Some(name) => match app_named(name, 0) {
            Some(app) => GameTileView::Logo(app),
            None => initial_tile(game.name),
        },
        None => initial_tile(game.name),
    }
}

pub open spec fn initial_tile(name: Seq<char>) -> GameTileView {
    match first_alphanumeric(name, 0) {
        Some(k) => GameTileView::Initial(unicode_uppercase(name[k])),
        None => GameTileView::Initial(seq!['?']),
    }
}

fn same_chars(a: &Vec<char>, b: &Vec<char>) -> (r: bool)
    ensures
        r == (a@ == b@),
{
    if a.len() != b.len() {
        return false;
    }
    let mut i: usize = 0;
    while i < a.len()
        invariant
            a.len() == b.len(),
            i <= a.len(),
            forall|k: int| 0 <= k < i ==> a@[k] == b@[k],
        decreases a.len() - i,
    {
        if a[i] != b[i] {
            return false;
        }
        i = i + 1;
    }
    assert(a@ == b@);
    true
}

fn initial(name: &String) -> (r: GameTile)
    ensures
        r@ == initial_tile(name@),
{
    let chars = chars_of(name.as_str());
    let mut k: usize = 0;
    while k < chars.len()
        invariant
            k <= chars.len(),
            chars@ == name@,
            first_alphanumeric(name@, 0) == first_alphanumeric(name@, k as int),
        decreases chars.len() - k,
    {
        if is_alphanumeric(chars[k]) {
            return GameTile::Initial(uppercase(chars[k]));
        }
        k = k + 1;
    }
    let q = vec!['?'];
    assert(q@ =~= seq!['?']);
    GameTile::Initial(string_from(&q))
}

/// The tile for one game in the vault inventory.
///
/// An emulator game gets the emulator's own logo. Everything else gets its initial, which is a
/// placeholder and says so.
pub fn game_tile(game: &Game) -> (r: GameTile)
    ensures
        r@ == tile_of(game@),
{
    match &game.emulator {
        Some(name) => {
            let wanted = chars_of(name.as_str());
            let mut k: usize = 0;
            while k < 8
                invariant
                    k <= 8,
                    wanted@ == name@,
                    game@.emulator == Some(name@),
                    app_named(name@, 0) == app_named(name@, k as int),
                decreases 8 - k,
            {
                let app = App::ALL[k];
                assert(app == all_apps()[k as int]);
                let have = chars_of(app.name());
                if same_chars(&have, &wanted) {
                    assert(app_name(all_apps()[k as int]) == name@);
                    return GameTile::Logo(app);
                }
                k = k + 1;
            }
            initial(&game.name)
        },
        None => initial(&game.name),
    }
}

} // verus!
