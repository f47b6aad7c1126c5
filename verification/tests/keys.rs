use thunderboard::config::{Config, Pitch, Profile, Sound};
use thunderboard::hotkeys::{bindings, refused, Action};
use thunderboard::layout::{active_layout_vk, moving_scan, retarget, retarget_to, LAYOUT_KEYS};
use thunderboard::single::Single;

#[test]
fn punctuation_retargets_to_the_layout() {
    // Latin American Spanish, as reported by MapVirtualKeyEx for layout
    // 0x080A140A. The physical key the UI calls Backquote types `|` and
    // reports 0xDC; 0xC0 sits on another key instead.
    let latam = |scan: u32| match scan {
        0x29 => 0xDC, // Backquote position -> the `|` key
        0x2B => 0xBF, // Backslash position -> `}`
        0x27 => 0xC0, // Semicolon position
        0x28 => 0xDE, // Quote position     -> `{`
        _ => 0,
    };

    // The bug: stop on the `|` key used to register 0xC0, another key.
    // 0xDC is what the US table calls Backslash, so that is what gets
    // registered - and pressing `|` now fires it.
    assert_eq!(retarget("Backquote", latam), "Backslash");
    assert_eq!(retarget("Shift+Backquote", latam), "Shift+Backslash");
    assert_eq!(retarget("Ctrl+Shift+Backquote", latam), "Ctrl+Shift+Backslash");
    // Quote happens to sit on the same virtual key on both layouts.
    assert_eq!(retarget("Ctrl+Shift+Quote", latam), "Ctrl+Shift+Quote");

    // Letters, digits and F-keys never move, so they are passed straight
    // through - which is why the sound hotkeys worked all along.
    for untouched in ["Ctrl+Shift+Digit1", "Ctrl+Shift+KeyQ", "F13", "Ctrl+Alt+Shift+F13"] {
        assert_eq!(retarget(untouched, latam), untouched);
    }

    // A US layout is the identity case: nothing should be rewritten.
    let us = |scan: u32| {
        LAYOUT_KEYS.iter().find(|(_, s, _)| *s == scan).map(|(_, _, vk)| *vk).unwrap_or(0)
    };
    for (name, _, _) in LAYOUT_KEYS {
        assert_eq!(retarget(name, us), name);
        assert_eq!(retarget(&format!("Ctrl+Shift+{name}"), us), format!("Ctrl+Shift+{name}"));
    }

    // A layout that puts something unnameable here is left alone rather
    // than silently bound to the wrong key.
    assert_eq!(retarget("Backquote", |_| 0xE2), "Backquote");
}

#[test]
fn the_table_of_a_us_layout() {
    for (name, scan, vk) in LAYOUT_KEYS {
        assert_eq!(active_layout_vk(scan), vk);
        assert_eq!(moving_scan(&format!("Alt+{name}")), Some(scan));
        assert_eq!(retarget(name, active_layout_vk), name);
    }
    assert_eq!(active_layout_vk(0x29), 0xC0);
    assert_eq!(active_layout_vk(0x1E), 0);
    assert_eq!(moving_scan("Alt+KeyA"), None);
}

#[test]
fn odd_shortcuts_are_left_alone() {
    assert_eq!(retarget_to("", 0xDC), "");
    assert_eq!(retarget_to("Ctrl+", 0xDC), "Ctrl+");
    assert_eq!(retarget_to("Minus+KeyA", 0xDC), "Minus+KeyA");
    assert_eq!(retarget_to("minus", 0xDC), "minus");
    assert_eq!(retarget_to("\u{f1}+Minus", 0xDC), "\u{f1}+Backslash");
    assert_eq!(retarget_to("Minus", 0), "Minus");
}

fn sound(id: &str, hotkey: &str) -> Sound {
    Sound {
        id: id.into(),
        name: id.into(),
        file: String::new(),
        hotkey: hotkey.into(),
        volume: Single { bits: 1.0f32.to_bits() },
        offset: Single { bits: 0 },
        pitch: Pitch::default(),
    }
}

#[test]
fn controls_are_bound_before_sounds() {
    let mut cfg = Config::default("p".to_string());
    cfg.active = "q".into();
    cfg.profiles.push(Profile {
        id: "q".into(),
        sounds: vec![
            sound("a", "Ctrl+Shift+Semicolon"),
            sound("b", ""),
            sound("c", "Ctrl+Shift+Digit1"),
        ],
        ..Default::default()
    });
    cfg.profiles[0].sounds.push(sound("not in use", "Ctrl+Shift+Digit2"));

    let plan = bindings(&cfg, |scan| if scan == 0x28 { 0xC0 } else { active_layout_vk(scan) });
    let keys: Vec<&str> = plan.iter().map(|b| b.key.as_str()).collect();
    assert_eq!(
        keys,
        ["Ctrl+Shift+Quote", "Ctrl+Shift+Semicolon", "Ctrl+Shift+Semicolon", "Ctrl+Shift+Digit1"]
    );
    assert!(matches!(plan[0].action, Action::TogglePitch));
    assert!(matches!(plan[1].action, Action::Stop));
    assert!(matches!(&plan[2].action, Action::Play { id } if id == "a"));
    assert!(matches!(&plan[3].action, Action::Play { id } if id == "c"));
    // Registered under what the layout produces, reported as configured.
    assert_eq!(plan[0].target, "Ctrl+Shift+Backquote");
    assert_eq!(plan[1].target, "Ctrl+Shift+Semicolon");
    assert_eq!(refused(&plan, &vec![false, true, false, true]), [keys[0], keys[2]]);
    assert!(refused(&plan, &vec![true, true, true, true]).is_empty());

    cfg.next_profile_hotkey = "F13".into();
    cfg.pitch_hotkey = String::new();
    let plan = bindings(&cfg, active_layout_vk);
    assert!(matches!(plan[0].action, Action::Stop));
    assert!(matches!(plan[1].action, Action::NextProfile));
    assert_eq!(plan.len(), 4);
}
