use bw_build_overlay::order::sorted_unique;
use bw_build_overlay::text::decimal_string;
use bw_build_overlay::types::HotkeyAction;
use bw_build_overlay::window::{
    all_shortcuts, check_external_url, shortcut_to_action, toggle_step, Hotkey, HotkeyCode,
    HotkeyModifiers, ToggleStep,
};
use std::collections::HashSet;

fn mods(ctrl: bool, alt: bool, shift: bool) -> HotkeyModifiers {
    HotkeyModifiers { ctrl, alt, shift, meta: false }
}

#[test]
fn hotkeys_map_to_their_actions() {
    let ca = mods(true, true, false);
    assert_eq!(shortcut_to_action(Hotkey { mods: ca, code: HotkeyCode::Digit1 }), Some(HotkeyAction::RaceTerran));
    assert_eq!(shortcut_to_action(Hotkey { mods: ca, code: HotkeyCode::KeyR }), Some(HotkeyAction::OppRandom));
    assert_eq!(shortcut_to_action(Hotkey { mods: ca, code: HotkeyCode::KeyB }), Some(HotkeyAction::NextBuild));
    assert_eq!(
        shortcut_to_action(Hotkey { mods: mods(true, true, true), code: HotkeyCode::KeyB }),
        Some(HotkeyAction::PrevBuild)
    );
    assert_eq!(shortcut_to_action(Hotkey { mods: mods(true, true, true), code: HotkeyCode::KeyF }), None);
    assert_eq!(shortcut_to_action(Hotkey { mods: mods(true, false, false), code: HotkeyCode::Digit1 }), None);
    assert_eq!(shortcut_to_action(Hotkey { mods: ca, code: HotkeyCode::Other }), None);
}

#[test]
fn every_registered_hotkey_has_its_own_action() {
    let keys = all_shortcuts();
    assert_eq!(keys.len(), 15);
    let actions: HashSet<String> = keys
        .iter()
        .map(|k| format!("{:?}", shortcut_to_action(*k).expect("registered hotkey has an action")))
        .collect();
    assert_eq!(actions.len(), 15);
}

#[test]
fn toggle_hides_visible_windows() {
    assert_eq!(toggle_step(Some(true)), ToggleStep::Hide);
    assert_eq!(toggle_step(None), ToggleStep::Hide);
    assert_eq!(toggle_step(Some(false)), ToggleStep::ShowAndFocus);
}

#[test]
fn only_http_links_open() {
    assert!(check_external_url("https://liquipedia.net").is_ok());
    assert!(check_external_url("http://x").is_ok());
    assert_eq!(check_external_url("file:///etc/passwd"), Err("only http(s) URLs are allowed".to_string()));
    assert!(check_external_url("httpx://").is_err());
}

#[test]
fn sorted_unique_orders_by_code_point() {
    let titles = vec!["b".to_string(), "B".to_string(), "a".to_string(), "b".to_string(), "ä".to_string()];
    assert_eq!(sorted_unique(&titles), vec!["B".to_string(), "a".to_string(), "b".to_string(), "ä".to_string()]);
}

#[test]
fn decimal_strings() {
    assert_eq!(decimal_string(0), "0");
    assert_eq!(decimal_string(404), "404");
    assert_eq!(decimal_string(u64::MAX), u64::MAX.to_string());
}
