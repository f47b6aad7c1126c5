use thunderboard::config::{Config, Pitch, Profile, Sound};
use thunderboard::ids::uid;
use thunderboard::launch::{launch, menu_item, MenuItem};
use thunderboard::migrate::{free_keys, migrate};
use thunderboard::single::Single;

fn single(v: f32) -> Single {
    Single { bits: v.to_bits() }
}

fn sound(id: &str, pitch: Pitch) -> Sound {
    Sound {
        id: id.into(),
        name: id.into(),
        file: String::new(),
        hotkey: String::new(),
        volume: single(1.0),
        offset: single(0.0),
        pitch,
    }
}

fn profile(id: &str) -> Profile {
    Profile { id: id.into(), ..Default::default() }
}

#[test]
fn migration_reissues_old_bindings_once() {
    let mut old = Config {
        version: 0,
        pitch_hotkey: "Ctrl+Alt+Numpad0".into(),
        stop_hotkey: "Ctrl+Alt+NumpadDecimal".into(),
        profiles: vec![Profile {
            id: "p".into(),
            name: "Default".into(),
            folder: String::new(),
            sounds: vec![
                sound("a", Pitch::default()),
                sound("b", Pitch::default()),
                sound("c", Pitch::default()),
            ],
        }],
        ..Config::default(uid(0, 0))
    };
    old.profiles[0].sounds[0].hotkey = "Alt+KeyG".into();
    old.profiles[0].sounds[1].hotkey = "Alt+KeyF".into();
    // Left unbound on purpose - migration must not invent a binding for it.

    assert!(migrate(&mut old));
    assert_eq!(old.pitch_hotkey, "Ctrl+Shift+Quote");
    assert_eq!(old.profiles[0].sounds[0].hotkey, "Ctrl+Shift+Digit1");
    assert_eq!(old.profiles[0].sounds[1].hotkey, "Ctrl+Shift+Digit2");
    assert_eq!(old.profiles[0].sounds[2].hotkey, "");
    assert!(!old.profiles[0].sounds.iter().any(|s| s.hotkey.contains("Numpad")));

    // Idempotent: a second launch leaves the config alone.
    let before = format!("{old:?}");
    assert!(!migrate(&mut old));
    assert_eq!(before, format!("{old:?}"));
}

#[test]
fn the_bank_is_as_documented() {
    let keys = free_keys();
    assert_eq!(keys.len(), 18);
    assert_eq!(keys[0], "Ctrl+Shift+Digit1");
    assert_eq!(keys[9], "Ctrl+Shift+Digit0");
    assert_eq!(keys[10], "Ctrl+Shift+Minus");
    assert_eq!(keys[17], "Ctrl+Shift+Slash");
    for (i, a) in keys.iter().enumerate() {
        assert!(!keys[i + 1..].contains(a));
        assert_ne!(a, "Ctrl+Shift+Quote");
        assert_ne!(a, "Ctrl+Shift+Semicolon");
    }
}

#[test]
fn one_bank_serves_all_profiles_until_it_is_used_up() {
    let mut cfg = Config::default(uid(0, 0));
    cfg.version = 1;
    cfg.active = "kept".into();
    cfg.next_profile_hotkey = "Ctrl+Alt+Numpad9".into();
    cfg.profiles = vec![profile("p"), profile("q")];
    for k in 0..20 {
        let mut s = sound(&format!("s{k}"), Pitch::default());
        s.hotkey = "Alt+KeyG".into();
        s.volume = single(0.4);
        cfg.profiles[k % 2].sounds.push(s);
    }
    assert!(migrate(&mut cfg));
    let keys = free_keys();
    let all: Vec<String> = cfg
        .profiles
        .iter()
        .flat_map(|p| p.sounds.iter().map(|s| s.hotkey.clone()))
        .collect();
    assert_eq!(&all[..18], &keys[..]);
    assert_eq!(&all[18..], &["".to_string(), "".to_string()]);
    assert_eq!(cfg.profiles[1].sounds[0].id, "s1");
    assert_eq!(cfg.profiles[1].sounds[0].volume, single(0.4));
    assert_eq!(cfg.next_profile_hotkey, "");
    assert_eq!(cfg.stop_hotkey, "Ctrl+Shift+Semicolon");
    assert_eq!((cfg.version, cfg.active.as_str()), (2, "kept"));
}

#[test]
fn a_fresh_configuration_is_as_documented() {
    let cfg = Config::default("first".to_string());
    assert_eq!(cfg.version, 2);
    assert_eq!(cfg.profiles.len(), 1);
    assert_eq!((cfg.profiles[0].id.as_str(), cfg.profiles[0].name.as_str()), ("first", "Default"));
    assert!(cfg.profiles[0].sounds.is_empty() && cfg.profiles[0].folder.is_empty());
    assert_eq!((cfg.active.as_str(), cfg.output_device.as_str()), ("", "CABLE Input"));
    assert_eq!(cfg.monitor_device, "");
    assert_eq!(cfg.pitch_hotkey, "Ctrl+Shift+Quote");
    assert_eq!(cfg.stop_hotkey, "Ctrl+Shift+Semicolon");
    assert_eq!(cfg.next_profile_hotkey, "");
    assert_eq!(f32::from_bits(cfg.master_volume.bits), 1.0);
    let copy = cfg.clone();
    assert_eq!(format!("{cfg:?}"), format!("{copy:?}"));
}

#[test]
fn the_active_profile_is_found() {
    let mut cfg = Config::default("first".to_string());
    cfg.profiles = vec![profile("a"), profile("b"), profile("b")];
    cfg.profiles[1].name = "second".into();
    cfg.profiles[1].sounds = vec![sound("x", Pitch::default()), sound("y", Pitch::default())];
    cfg.active = "b".into();
    assert_eq!(cfg.active_profile().unwrap().name, "second");
    assert_eq!(cfg.sound("y").unwrap().id, "y");
    assert!(cfg.sound("z").is_none());
    // An id that belongs to nothing falls back to the first profile.
    cfg.active = "gone".into();
    assert_eq!(cfg.active_profile().unwrap().id, "a");
    assert!(cfg.sound("y").is_none());
    cfg.profiles.clear();
    assert!(cfg.active_profile().is_none());
    assert!(cfg.sound("y").is_none());
}

#[test]
fn the_next_profile_key_goes_round() {
    let mut cfg = Config::default("first".to_string());
    cfg.profiles = vec![profile("a"), profile("b"), profile("c")];
    cfg.active = "b".into();
    assert_eq!(cfg.next_profile().as_deref(), Some("c"));
    assert_eq!(cfg.active, "c");
    assert_eq!(cfg.next_profile().as_deref(), Some("a"));
    assert_eq!(cfg.next_profile().as_deref(), Some("b"));
    assert_eq!(cfg.active, "b");
    cfg.active = "gone".into();
    assert_eq!(cfg.next_profile(), None);
    assert_eq!(cfg.active, "gone");
}

#[test]
fn a_first_launch_makes_a_profile() {
    let l = launch(None, true, "fresh".to_string());
    assert!(l.save && l.opt_in && l.reveal);
    assert_eq!(l.config.active, "fresh");
    assert_eq!(l.config.profiles.len(), 1);
    assert_eq!(l.config.active_profile().unwrap().name, "Default");

    // Launching again with what was stored changes nothing.
    let before = format!("{:?}", l.config);
    let again = launch(Some(l.config), false, "other".to_string());
    assert!(!again.save && !again.opt_in && !again.reveal);
    assert_eq!(before, format!("{:?}", again.config));
}

#[test]
fn a_launch_repairs_and_migrates() {
    let mut cfg = Config::default("first".to_string());
    cfg.version = 0;
    cfg.profiles.clear();
    cfg.pitch_hotkey = "Ctrl+Alt+Numpad0".into();
    let l = launch(Some(cfg), false, "fresh".to_string());
    assert!(l.save);
    assert_eq!(l.config.profiles[0].id, "fresh");
    assert_eq!(l.config.active, "fresh");
    assert_eq!(l.config.pitch_hotkey, "Ctrl+Shift+Quote");
    assert_eq!(l.config.version, 2);

    let mut cfg = Config::default("first".to_string());
    cfg.active = "chosen".into();
    let l = launch(Some(cfg), false, "fresh".to_string());
    assert!(!l.save);
    assert_eq!(l.config.active, "chosen");
}

#[test]
fn the_menu_knows_its_items() {
    assert_eq!(menu_item("show"), Some(MenuItem::Show));
    assert_eq!(menu_item("stop"), Some(MenuItem::Stop));
    assert_eq!(menu_item("autostart"), Some(MenuItem::Autostart));
    assert_eq!(menu_item("quit"), Some(MenuItem::Quit));
    assert_eq!(menu_item("Quit"), None);
    assert_eq!(menu_item(""), None);
}

#[test]
fn the_user_is_opted_in_once() {
    // A first launch saves, so that the next one finds a file.
    let first = launch(None, true, "a".to_string());
    assert!(first.opt_in && first.save);
    let file_is_there = first.save;
    let second = launch(Some(first.config), !file_is_there, "b".to_string());
    assert!(!second.opt_in && !second.save);
    // A file that cannot be read is still a file.
    let broken = launch(None, false, "c".to_string());
    assert!(!broken.opt_in && !broken.save && !broken.reveal);
    assert_eq!(broken.config.active, "c");
}

#[test]
fn ids_are_hexadecimal() {
    assert_eq!(uid(0, 0), "00000000000000000");
    assert_eq!(uid(0x5f3a_91bc, 0x1f), "000000005f3a91bc1f");
    assert_eq!(uid(u64::MAX, 16), "ffffffffffffffff10");
    assert_eq!(uid(u64::MAX, u64::MAX), "f".repeat(32));
    let t = 1_700_000_000_000_000u64;
    assert_eq!(uid(t, 7), format!("{:016x}{:x}", t, 7));
}

#[test]
fn ids_do_not_collide() {
    let t = 1_700_000_000_000_000u64;
    assert_ne!(uid(t, 1), uid(t, 2));
    assert_ne!(uid(t, 1), uid(t + 1, 1));
    // Digits that could belong to the time or to the count.
    assert_ne!(uid(0x1, 0x23), uid(0x12, 0x3));
    assert_ne!(uid(0, 0x10), uid(0x1, 0));
}

#[test]
fn later_ids_come_later() {
    let t = 1_700_000_000_000_000u64;
    let ids = [uid(t, 8), uid(t, 9), uid(t, 10), uid(t + 5, 15), uid(t + 5, 16), uid(t + 6, 17)];
    for pair in ids.windows(2) {
        let (a, b) = (&pair[0], &pair[1]);
        assert!(a.len() < b.len() || (a.len() == b.len() && a < b), "{a} {b}");
    }
}
