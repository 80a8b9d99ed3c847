//! The overlay window's decisions: which global hotkey does what, and what
//! the window-toggle commands do. The window itself, its opacity and the
//! hotkey registration are the application's part.

use vstd::prelude::*;
use crate::text::{chars_of, string_from};
use crate::types::HotkeyAction;

verus! {

/// The label of the overlay's window.
pub const MAIN_WINDOW_LABEL: &'static str = "main";

/// The modifier keys held with a hotkey.
#[derive(Debug, Clone, Copy, PartialEq, Eq, Structural)]
pub struct HotkeyModifiers {
    pub ctrl: bool,
    pub alt: bool,
    pub shift: bool,
    pub meta: bool,
}

/// The keys the overlay's hotkeys use; any other key is `Other`.
#[derive(Debug, Clone, Copy, PartialEq, Eq, Structural)]
pub enum HotkeyCode {
    Digit0,
    Digit1,
    Digit2,
    Digit3,
    KeyB,
    KeyC,
    KeyE,
    KeyF,
    KeyH,
    KeyQ,
    KeyR,
    KeyW,
    PageDown,
    PageUp,
    Other,
}

/// A key with its modifiers.
#[derive(Debug, Clone, Copy, PartialEq, Eq, Structural)]
pub struct Hotkey {
    pub mods: HotkeyModifiers,
    pub code: HotkeyCode,
}

pub open spec fn ctrl_alt() -> HotkeyModifiers {
    HotkeyModifiers { ctrl: true, alt: true, shift: false, meta: false }
}

pub open spec fn ctrl_alt_shift() -> HotkeyModifiers {
    HotkeyModifiers { ctrl: true, alt: true, shift: true, meta: false }
}

/// The action of a hotkey, if it has one.
pub open spec fn action_of(h: Hotkey) -> Option<HotkeyAction> {
    if h.mods == ctrl_alt() {
        match h.code {
            HotkeyCode::Digit1 => Some(HotkeyAction::RaceTerran),
            HotkeyCode::Digit2 => Some(HotkeyAction::RaceProtoss),
            HotkeyCode::Digit3 => Some(HotkeyAction::RaceZerg),
            HotkeyCode::KeyQ => Some(HotkeyAction::OppTerran),
            HotkeyCode::KeyW => Some(HotkeyAction::OppZerg),
            HotkeyCode::KeyE => Some(HotkeyAction::OppProtoss),
            HotkeyCode::KeyR => Some(HotkeyAction::OppRandom),
            HotkeyCode::KeyB => Some(HotkeyAction::NextBuild),
            HotkeyCode::PageDown => Some(HotkeyAction::NextPage),
            HotkeyCode::PageUp => Some(HotkeyAction::PrevPage),
            HotkeyCode::Digit0 => Some(HotkeyAction::FirstPage),
            HotkeyCode::KeyF => Some(HotkeyAction::ToggleFavorite),
            HotkeyCode::KeyC => Some(HotkeyAction::ToggleCompact),
            HotkeyCode::KeyH => Some(HotkeyAction::ToggleWindow),
            HotkeyCode::Other => None,
        }
    } else if h.mods == ctrl_alt_shift() && h.code == HotkeyCode::KeyB {
        Some(HotkeyAction::PrevBuild)
    } else {
        None
    }
}

fn is_ctrl_alt(m: HotkeyModifiers) -> (r: bool)
    ensures
        r == (m == ctrl_alt()),
{
    m.ctrl && m.alt && !m.shift && !m.meta
}

/// The action of a pressed hotkey: Ctrl+Alt with 1, 2, 3 picks the race,
/// with Q, W, E, R the opponent, B the next build (with Shift the previous
/// one), Page Down / Page Up / 0 the page, F the favourite, C the compact
/// view, H the window.
pub fn shortcut_to_action(h: Hotkey) -> (r: Option<HotkeyAction>)
    ensures
        r == action_of(h),
{
    if h.mods.ctrl && h.mods.alt && h.mods.shift && !h.mods.meta {
        return match h.code {
            HotkeyCode::KeyB => Some(HotkeyAction::PrevBuild),
            _ => None,
        };
    }
    if !is_ctrl_alt(h.mods) {
        return None;
    }
    match h.code {
        HotkeyCode::Digit1 => Some(HotkeyAction::RaceTerran),
        HotkeyCode::Digit2 => Some(HotkeyAction::RaceProtoss),
        HotkeyCode::Digit3 => Some(HotkeyAction::RaceZerg),
        HotkeyCode::KeyQ => Some(HotkeyAction::OppTerran),
        HotkeyCode::KeyW => Some(HotkeyAction::OppZerg),
        HotkeyCode::KeyE => Some(HotkeyAction::OppProtoss),
        HotkeyCode::KeyR => Some(HotkeyAction::OppRandom),
        HotkeyCode::KeyB => Some(HotkeyAction::NextBuild),
        HotkeyCode::PageDown => Some(HotkeyAction::NextPage),
        HotkeyCode::PageUp => Some(HotkeyAction::PrevPage),
        HotkeyCode::Digit0 => Some(HotkeyAction::FirstPage),
        HotkeyCode::KeyF => Some(HotkeyAction::ToggleFavorite),
        HotkeyCode::KeyC => Some(HotkeyAction::ToggleCompact),
        HotkeyCode::KeyH => Some(HotkeyAction::ToggleWindow),
        HotkeyCode::Other => None,
    }
}

/// The hotkeys the overlay registers, in order.
pub open spec fn registered_hotkeys() -> Seq<Hotkey> {
    let ca = ctrl_alt();
    seq![
        Hotkey { mods: ca, code: HotkeyCode::Digit1 },
        Hotkey { mods: ca, code: HotkeyCode::Digit2 },
        Hotkey { mods: ca, code: HotkeyCode::Digit3 },
        Hotkey { mods: ca, code: HotkeyCode::KeyQ },
        Hotkey { mods: ca, code: HotkeyCode::KeyW },
        Hotkey { mods: ca, code: HotkeyCode::KeyE },
        Hotkey { mods: ca, code: HotkeyCode::KeyR },
        Hotkey { mods: ca, code: HotkeyCode::KeyB },
        Hotkey { mods: ctrl_alt_shift(), code: HotkeyCode::KeyB },
        Hotkey { mods: ca, code: HotkeyCode::PageDown },
        Hotkey { mods: ca, code: HotkeyCode::PageUp },
        Hotkey { mods: ca, code: HotkeyCode::Digit0 },
        Hotkey { mods: ca, code: HotkeyCode::KeyF },
        Hotkey { mods: ca, code: HotkeyCode::KeyC },
        Hotkey { mods: ca, code: HotkeyCode::KeyH },
    ]
}

/// The hotkeys to register.
pub fn all_shortcuts() -> (r: Vec<Hotkey>)
    ensures
        r@ == registered_hotkeys(),
{
    let ca = HotkeyModifiers { ctrl: true, alt: true, shift: false, meta: false };
    let cas = HotkeyModifiers { ctrl: true, alt: true, shift: true, meta: false };
    let r = vec![
        Hotkey { mods: ca, code: HotkeyCode::Digit1 },
        Hotkey { mods: ca, code: HotkeyCode::Digit2 },
        Hotkey { mods: ca, code: HotkeyCode::Digit3 },
        Hotkey { mods: ca, code: HotkeyCode::KeyQ },
        Hotkey { mods: ca, code: HotkeyCode::KeyW },
        Hotkey { mods: ca, code: HotkeyCode::KeyE },
        Hotkey { mods: ca, code: HotkeyCode::KeyR },
        Hotkey { mods: ca, code: HotkeyCode::KeyB },
        Hotkey { mods: cas, code: HotkeyCode::KeyB },
        Hotkey { mods: ca, code: HotkeyCode::PageDown },
        Hotkey { mods: ca, code: HotkeyCode::PageUp },
        Hotkey { mods: ca, code: HotkeyCode::Digit0 },
        Hotkey { mods: ca, code: HotkeyCode::KeyF },
        Hotkey { mods: ca, code: HotkeyCode::KeyC },
        Hotkey { mods: ca, code: HotkeyCode::KeyH },
    ];
    assert(r@ =~= registered_hotkeys());
    r
}

/// Every registered hotkey has an action, and no two registered hotkeys
/// have the same one.
pub proof fn lemma_registered_hotkeys_act()
    ensures
        forall|i: int| 0 <= i < registered_hotkeys().len() ==> (#[trigger] action_of(registered_hotkeys()[i])) is Some,
        forall|i: int, j: int|
            0 <= i < j < registered_hotkeys().len() ==> #[trigger] action_of(registered_hotkeys()[i]) != #[trigger] action_of(
                registered_hotkeys()[j],
            ),
{
    let s = registered_hotkeys();
    assert(s.len() == 15);
    assert forall|i: int| 0 <= i < s.len() implies (#[trigger] action_of(s[i])) is Some by {
    }
    assert forall|i: int, j: int| 0 <= i < j < s.len() implies #[trigger] action_of(s[i]) != #[trigger] action_of(s[j]) by {
    }
}

/// Every hotkey action has a registered hotkey.
pub proof fn lemma_every_action_registered(a: HotkeyAction)
    ensures
        exists|i: int| 0 <= i < registered_hotkeys().len() && #[trigger] action_of(registered_hotkeys()[i]) == Some(a),
{
    let s = registered_hotkeys();
    let i: int = match a {
        HotkeyAction::RaceTerran => 0,
        HotkeyAction::RaceProtoss => 1,
        HotkeyAction::RaceZerg => 2,
        HotkeyAction::OppTerran => 3,
        HotkeyAction::OppZerg => 4,
        HotkeyAction::OppProtoss => 5,
        HotkeyAction::OppRandom => 6,
        HotkeyAction::NextBuild => 7,
        HotkeyAction::PrevBuild => 8,
        HotkeyAction::NextPage => 9,
        HotkeyAction::PrevPage => 10,
        HotkeyAction::FirstPage => 11,
        HotkeyAction::ToggleFavorite => 12,
        HotkeyAction::ToggleCompact => 13,
        HotkeyAction::ToggleWindow => 14,
    };
    assert(action_of(s[i]) == Some(a));
}

/// What toggling the window does.
#[derive(Debug, Clone, Copy, PartialEq, Eq, Structural)]
pub enum ToggleStep {
    Hide,
    ShowAndFocus,
}

/// Toggling hides a visible window and shows and focuses a hidden one; a
/// window whose visibility cannot be read counts as visible.
pub fn toggle_step(visible: Option<bool>) -> (r: ToggleStep)
    ensures
        r == (if visible == Some(false) {
            ToggleStep::ShowAndFocus
        } else {
            ToggleStep::Hide
        }),
{
    match visible {
        Some(false) => ToggleStep::ShowAndFocus,
        _ => ToggleStep::Hide,
    }
}

// ---------------------------------------------------------------------------
// Opening links
// ---------------------------------------------------------------------------

/// The answer to a link that is not http(s).
pub const EXTERNAL_URL_REFUSED: &'static str = "only http(s) URLs are allowed";

pub open spec fn starts_with(s: Seq<char>, prefix: Seq<char>) -> bool {
    prefix.len() <= s.len() && s.take(prefix.len() as int) == prefix
}

fn starts_with_exec(s: &[char], prefix: &str) -> (r: bool)
    ensures
        r == starts_with(s@, prefix@),
{
    let p = chars_of(prefix);
    if p.len() > s.len() {
        return false;
    }
    let mut k: usize = 0;
    while k < p.len()
        invariant
            p@ == prefix@,
            p.len() <= s.len(),
            k <= p.len(),
            forall|j: int| 0 <= j < k ==> s@[j] == p@[j],
        decreases p.len() - k,
    {
        if s[k] != p[k] {
            assert(s@.take(p@.len() as int)[k as int] != p@[k as int]);
            return false;
        }
        k = k + 1;
    }
    assert(s@.take(p@.len() as int) =~= p@);
    true
}

/// Only http and https links are opened.
pub fn check_external_url(url: &str) -> (r: Result<(), String>)
    ensures
        (starts_with(url@, "http://"@) || starts_with(url@, "https://"@)) <==> r is Ok,
        r matches Err(m) ==> m@ == EXTERNAL_URL_REFUSED@,
{
    let v = chars_of(url);
    if !starts_with_exec(v.as_slice(), "http://") && !starts_with_exec(v.as_slice(), "https://") {
        return Err(string_from(EXTERNAL_URL_REFUSED));
    }
    Ok(())
}

} // verus!
