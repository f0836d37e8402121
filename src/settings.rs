use vstd::prelude::*;

verus! {

/// Phases of the game.
#[derive(Clone, Copy, PartialEq, Eq, Hash, Debug, Structural)]
pub enum GameState {
    PreLoad,
    Load,
    Menu,
    Play,
}

impl Default for GameState {
    fn default() -> (r: GameState)
        ensures
            r == GameState::PreLoad,
    {
        GameState::PreLoad
    }
}

/// Platforms the game starts on.
#[derive(Clone, Copy, PartialEq, Eq, Hash, Debug, Structural)]
pub enum OSType {
    Windows,
    Macos,
    Linux,
    Android,
    Ios,
}

impl OSType {
    /// Whether the platform takes the mobile window settings rather than the desktop ones.
    pub fn is_mobile(&self) -> (r: bool)
        ensures
            r == (*self is Android || *self is Ios),
    {
        match self {
            OSType::Android | OSType::Ios => true,
            _ => false,
        }
    }
}

/// Language settings: a locale name such as `ru_RU`.
pub struct LanguageSettings {
    pub lang: String,
}

/// Settings the game starts with.
pub struct GameSettings {
    pub lang: LanguageSettings,
}

pub open spec fn default_locale() -> Seq<char> {
    seq!['r', 'u', '_', 'R', 'U']
}

/// The built-in settings: locale `ru_RU`.
pub fn load() -> (r: GameSettings)
    ensures
        r.lang.lang@ == default_locale(),
{
    proof {
        reveal_strlit("ru_RU");
    }
    let lang = "ru_RU".to_owned();
    assert(lang@ =~= default_locale());
    GameSettings { lang: LanguageSettings { lang } }
}

} // verus!
