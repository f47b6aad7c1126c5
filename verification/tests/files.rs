use std::cell::Cell;
use thunderboard::config::{Pitch, Sound};
use thunderboard::devices::output_devices;
use thunderboard::folder::{audio_files, merge_folder, new_sound, sync_folder, Entry, Listing};
use thunderboard::ids::uid;
use thunderboard::import::{asked_dir, target_name, Import, ImportAction};
use thunderboard::paths::{
    audio_extension, is_audio, is_file_in_folder, is_in_folder, same_file, stem, ClipPath,
};
use thunderboard::single::Single;
use thunderboard::window::{can_place, place};

fn single(v: f32) -> Single {
    Single { bits: v.to_bits() }
}

fn sound(id: &str, pitch: Pitch) -> Sound {
    Sound {
        id: id.into(),
        name: id.into(),
        file: String::new(),
        hotkey: String::new(),
        volume: single(1.0),
        offset: single(0.0),
        pitch,
    }
}

#[test]
fn folder_sync_keeps_tuning_and_order() {
    let count = Cell::new(0u64);
    let fresh = |_number: u64| {
        count.set(count.get() + 1);
        uid(7, count.get())
    };

    let mut tuned = sound("a", Pitch::default());
    tuned.file = r"C:\clips\air.mp3".into();
    tuned.hotkey = "Ctrl+Shift+Digit1".into();
    tuned.volume = single(0.4);
    let mut gone = sound("b", Pitch::default());
    gone.file = r"C:\clips\deleted.mp3".into();

    let on_disk = vec![
        // Same file, different case: Windows, so this is the same clip.
        ClipPath::new(r"C:\CLIPS\air.mp3"),
        ClipPath::new(r"C:\clips\new.wav"),
    ];
    let out = merge_folder(&vec![tuned.clone(), gone], &on_disk, fresh);

    // The tuned row survives, in place, with everything it had.
    assert_eq!(out.len(), 2);
    assert_eq!(out[0].id, tuned.id);
    assert_eq!(out[0].hotkey, "Ctrl+Shift+Digit1");
    assert_eq!(out[0].volume, single(0.4));
    // The deleted file dropped out and the new one arrived, named by stem.
    assert_eq!(out[1].name, "new");
    assert!(out[1].hotkey.is_empty());
    assert!(!out.iter().any(|s| s.file.contains("deleted")));

    // Syncing again with nothing changed must not churn ids or order.
    let again = merge_folder(&out, &on_disk, fresh);
    assert_eq!(
        again.iter().map(|s| &s.id).collect::<Vec<_>>(),
        out.iter().map(|s| &s.id).collect::<Vec<_>>()
    );
}

#[test]
fn new_rows_are_untuned() {
    let s = new_sound(&ClipPath::new(r"D:\x\air horn.MP3"), "id".to_string());
    assert_eq!((s.id.as_str(), s.name.as_str()), ("id", "air horn"));
    assert_eq!(s.file, r"D:\x\air horn.MP3");
    assert_eq!(s.hotkey, "");
    assert_eq!((s.volume, s.offset), (single(1.0), single(0.0)));
    assert_eq!(s.pitch, Pitch::default());
}

#[test]
fn one_file_reached_twice_is_one_row() {
    let disk = vec![ClipPath::new("a/x.mp3"), ClipPath::new("A/X.MP3"), ClipPath::new("b/x.mp3")];
    let out = merge_folder(&vec![], &disk, |_| "n".to_string());
    let files: Vec<&str> = out.iter().map(|s| s.file.as_str()).collect();
    assert_eq!(files, ["a/x.mp3", "b/x.mp3"]);
}

fn parts(text: &str) -> (Option<String>, Option<String>) {
    let p = ClipPath::new(text);
    assert_eq!(p.text, text);
    (p.stem, p.extension)
}

fn named(stem: &str, ext: &str) -> (Option<String>, Option<String>) {
    (Some(stem.to_string()), Some(ext.to_string()))
}

#[test]
fn file_names_are_taken_apart() {
    assert_eq!(parts(r"C:\clips\new.wav"), named("new", "wav"));
    assert_eq!(parts("C:/clips\\a.b.mp3"), named("a.b", "mp3"));
    assert_eq!(parts("C:a.mp3"), named("a", "mp3"));
    assert_eq!(parts(r"\\box\share\a.mp3"), named("a", "mp3"));
    assert_eq!(parts("a.mp3/"), named("a", "mp3"));
    assert_eq!(parts("x/a.mp3/."), named("a", "mp3"));
    assert_eq!(parts("a."), named("a", ""));
    assert_eq!(parts("\u{f1}o.mp3"), named("\u{f1}o", "mp3"));
    assert_eq!(parts(".mp3"), (Some(".mp3".to_string()), None));
    assert_eq!(parts("..mp3"), named(".", "mp3"));
    assert_eq!(parts("plain"), (Some("plain".to_string()), None));
    for nothing in ["", "..", "a/..", ".", "./", "C:", r"C:\", r"\\box\share", r"\\box\share\", "/"] {
        assert_eq!(parts(nothing), (None, None), "{nothing}");
    }
    // A machine without a share is an ordinary name.
    assert_eq!(parts(r"\\box"), (Some("box".to_string()), None));
    assert_eq!(stem(&ClipPath::new("..")), "sound");
    assert_eq!(stem(&ClipPath::new("x/air.mp3")), "air");
}

#[test]
fn audio_is_told_by_its_extension() {
    for ext in ["mp3", "wav", "ogg", "flac", "m4a", "aac", "opus", "wma"] {
        assert!(is_audio(&ClipPath::new(&format!("x.{ext}"))));
        assert!(is_audio(&ClipPath::new(&format!("x.{}", ext.to_uppercase()))));
    }
    assert_eq!(audio_extension(&ClipPath::new("x.FlAc")), Some("flac"));
    for other in ["x.txt", "x", "mp3", ".mp3", "x.mp3.zip", "x.mp", "x.mp33", "x.\u{212a}"] {
        assert!(!is_audio(&ClipPath::new(other)), "{other}");
    }
    let unreadable = ClipPath {
        text: "?".into(),
        order: vec![0xed],
        stem: None,
        extension: Some("mp3".into()),
    };
    assert!(is_audio(&unreadable));
    assert_eq!(stem(&unreadable), "sound");
}

#[test]
fn files_are_the_same_in_any_case() {
    assert!(same_file(r"C:\A.mp3", r"c:\a.MP3"));
    assert!(!same_file("a.mp3", "b.mp3"));
    assert!(!same_file("a.mp3", "a.mp"));
    // Only the plain letters have a case here.
    assert!(!same_file("\u{c9}.mp3", "\u{e9}.mp3"));
    assert!(!same_file("[", "{"));
    assert!(same_file("@Z[", "@z["));
}

#[test]
fn folders_are_recognised() {
    assert!(is_in_folder(r"C:\clips\a.mp3", r"C:\clips"));
    assert!(is_in_folder("c:/clips//a.mp3", r"C:\clips\.\"));
    assert!(is_in_folder(r"C:\a.mp3", r"C:\"));
    assert!(is_in_folder(r"\\box\share\a.mp3", r"\\box\share"));
    // Case does not count anywhere.
    assert!(is_in_folder(r"C:\Clips\A.mp3", r"c:\cLIPS"));
    assert!(is_in_folder(r"\\BOX\share\a.mp3", r"\\box\Share"));
    // A dot behind a drive leads nowhere.
    assert!(is_in_folder(r"C:.\a.mp3", "C:"));
    assert!(is_in_folder("C:a.mp3", "C:."));
    assert!(!is_in_folder("C:a.mp3", r"C:\"));
    assert!(!is_in_folder(r"C:\clips\sub\a.mp3", r"C:\clips"));
    assert!(!is_in_folder(r"D:\clips\a.mp3", r"C:\clips"));
    assert!(!is_in_folder(r"clips\a.mp3", r"\clips"));
    assert!(!is_in_folder(r"\\box\share\a.mp3", r"\\box\other"));
    assert!(!is_in_folder(r".\clips\a.mp3", "clips"));
    assert!(!is_in_folder("", ""));
}

#[test]
fn verbatim_paths_are_taken_as_they_are() {
    // Only the backslash separates, and a dot is a name.
    assert_eq!(parts(r"\\?\C:\a/b.mp3"), named("a/b", "mp3"));
    assert_eq!(parts(r"\\?\UNC\box\share\a.mp3"), named("a", "mp3"));
    assert_eq!(parts(r"\\?\name\a.mp3"), named("a", "mp3"));
    assert_eq!(parts(r"\\.\name\a.mp3"), named("a", "mp3"));
    let nothings = [r"\\?\C:", r"\\?\C:\", r"\\?\C:\x\.", r"\\?\UNC\box\share", r"\\?\a.mp3"];
    for nothing in nothings {
        assert_eq!(parts(nothing), (None, None), "{nothing}");
    }
    // With the other slash in front it is an ordinary share.
    assert_eq!(parts("//?/share/a/b.mp3"), named("b", "mp3"));

    assert!(is_in_folder(r"\\?\C:\x\a.mp3", r"\\?\c:\X"));
    assert!(is_in_folder(r"\\?\C:\a.mp3", r"\\?\C:\"));
    assert!(is_in_folder(r"\\?\UNC\box\share\a.mp3", r"\\?\UNC\box\share\"));
    assert!(!is_in_folder(r"\\?\C:\a.mp3", r"\\?\C:"));
    assert!(!is_in_folder(r"\\?\C:\x/a.mp3", r"\\?\C:\x"));
    assert!(!is_in_folder(r"\\?\C:\x\.\a.mp3", r"\\?\C:\x"));
    // Its kind of start counts.
    assert!(!is_in_folder(r"\\?\C:\x\a.mp3", r"C:\x"));
    assert!(!is_in_folder(r"\\?\UNC\box\share\a.mp3", r"\\box\share"));

    assert!(is_file_in_folder(r"C:\x\a.mp3", r"c:\X", "a.mp3"));
    assert!(!is_file_in_folder(r"C:\x\a.mp3", r"C:\x", "b.mp3"));
    assert!(!is_file_in_folder(r"C:\y\a.mp3", r"C:\x", "a.mp3"));
    assert!(!is_file_in_folder("a:b.mp3", r"C:\x", "a:b.mp3"));
}

#[test]
fn files_are_sorted_by_their_bytes() {
    assert_eq!(ClipPath::new("\u{e9}.mp3").order, "\u{e9}.mp3".as_bytes());
    // A lone surrogate is no text, and is replaced by a character that would
    // come behind this one.
    let lone = ClipPath {
        text: "r/\u{fffd}.mp3".into(),
        order: [b"r/", &[0xed, 0xa0, 0x80][..], b".mp3"].concat(),
        stem: None,
        extension: Some("mp3".into()),
    };
    let dir = Listing { entries: vec![file("r/\u{e000}.mp3"), Entry::File(lone), file("r/z.mp3")] };
    let mut out = Vec::new();
    audio_files(&dir, &mut out);
    let found: Vec<&str> = out.iter().map(|p| p.text.as_str()).collect();
    assert_eq!(found, ["r/z.mp3", "r/\u{fffd}.mp3", "r/\u{e000}.mp3"]);
}

#[test]
fn devices_are_listed_sorted_and_once() {
    let names = |list: &[&str]| list.iter().map(|s| s.to_string()).collect::<Vec<_>>();
    let found = names(&["Speakers", "CABLE Input", "Speakers", "\u{e9}couteurs", "CABLE", "speakers"]);
    assert_eq!(
        output_devices(&found),
        names(&["CABLE", "CABLE Input", "Speakers", "speakers", "\u{e9}couteurs"])
    );
    assert_eq!(output_devices(&vec![]), names(&[]));
}

fn file(text: &str) -> Entry {
    Entry::File(ClipPath::new(text))
}

#[test]
fn folders_are_walked_depth_first() {
    let dir = Listing {
        entries: vec![
            file("r/b.mp3"),
            Entry::Folder(Listing {
                entries: vec![
                    file("r/s/z.wav"),
                    Entry::Folder(Listing { entries: vec![file("r/s/t/q.ogg")] }),
                    file("r/s/y.wav"),
                ],
            }),
            file("r/notes.txt"),
            file("r/B.mp3"),
            file("r/a.mp3"),
            Entry::Folder(Listing { entries: vec![] }),
            file("r/a.mp3x.mp3"),
        ],
    };
    let mut out = vec![ClipPath::new("already.mp3")];
    audio_files(&dir, &mut out);
    let found: Vec<&str> = out.iter().map(|p| p.text.as_str()).collect();
    assert_eq!(
        found,
        [
            "already.mp3",
            "r/s/t/q.ogg",
            "r/s/y.wav",
            "r/s/z.wav",
            "r/B.mp3",
            "r/a.mp3",
            "r/a.mp3x.mp3",
            "r/b.mp3",
        ]
    );

    let rows = sync_folder("r", Some(&dir), &vec![], |_| "n".to_string()).unwrap();
    // `b.mp3` and `B.mp3` are one file.
    assert_eq!(rows.len(), 6);
    assert_eq!(rows[0].name, "q");
    let none = sync_folder("r", None, &vec![], |_| "n".to_string());
    assert_eq!(none.unwrap_err(), "r is not a folder");
}

#[test]
fn copies_get_names_that_are_free() {
    assert_eq!(target_name("airhorn", "mp3", 0), "airhorn.mp3");
    assert_eq!(target_name("airhorn", "mp3", 1), "airhorn (1).mp3");
    assert_eq!(target_name("airhorn", "mp3", 120), "airhorn (120).mp3");
    assert_eq!(asked_dir(None), None);
    assert_eq!(asked_dir(Some("".into())), None);
    assert_eq!(asked_dir(Some("d".into())).as_deref(), Some("d"));
}

#[test]
fn an_import_copies_adopts_and_skips() {
    let paths: Vec<String> = [
        r"D:\notes.txt",
        r"c:\OWN\here.wav",
        r"D:\airhorn.MP3",
        r"D:\more.txt",
        r"D:\bell.ogg",
    ]
    .iter()
    .map(|p| p.to_string())
    .collect();
    let fresh = |place: u64| format!("id{place}");
    let mut taken = vec!["airhorn.mp3".to_string(), "airhorn (1).mp3".to_string()];
    let mut copies: Vec<(String, String)> = Vec::new();
    let mut import = Import::new(&paths, r"C:\own".to_string());
    let mut action = import.next(fresh);
    loop {
        action = match action {
            ImportAction::Probe { name } => import.probed(taken.contains(&name)),
            ImportAction::Copy { from, name } => {
                if from == r"D:\bell.ogg" {
                    assert_eq!(import.copy_failed("disk full"), r"D:\bell.ogg: disk full");
                }
                let target = format!(r"C:\own\{name}");
                assert!(is_file_in_folder(&target, r"C:\own", &name));
                let place = import.imported.len() as u64;
                import.copied(&target, fresh(place));
                taken.push(name.clone());
                copies.push((from, name));
                import.next(fresh)
            }
            ImportAction::Finish => break,
        };
    }
    assert_eq!(
        copies,
        [
            (r"D:\airhorn.MP3".to_string(), "airhorn (2).mp3".to_string()),
            (r"D:\bell.ogg".to_string(), "bell.ogg".to_string()),
        ]
    );
    let rows: Vec<(&str, &str, &str)> = import
        .imported
        .iter()
        .map(|s| (s.id.as_str(), s.name.as_str(), s.file.as_str()))
        .collect();
    assert_eq!(
        rows,
        [
            ("id0", "here", r"c:\OWN\here.wav"),
            ("id1", "airhorn (2)", r"C:\own\airhorn (2).mp3"),
            ("id2", "bell", r"C:\own\bell.ogg"),
        ]
    );
    for row in &import.imported {
        assert!(is_in_folder(&row.file, r"C:\own"));
        assert_eq!(row.name, stem(&ClipPath::new(&row.file)));
        assert!(row.hotkey.is_empty());
        assert_eq!((row.volume, row.offset), (single(1.0), single(0.0)));
    }
}

#[test]
fn every_new_row_gets_an_id_of_its_own() {
    let mut old = sound("old", Pitch::default());
    old.file = "r/b.mp3".into();
    let disk: Vec<ClipPath> =
        ["r/a.mp3", "r/b.mp3", "r/c.mp3", "r/C.mp3", "r/d.mp3"].map(ClipPath::new).into();
    let out = merge_folder(&vec![old.clone()], &disk, |n| uid(5, n));
    let ids: Vec<&str> = out.iter().map(|s| s.id.as_str()).collect();
    assert_eq!(ids, ["old", &uid(5, 0), &uid(5, 1), &uid(5, 2)]);

    let dir = Listing { entries: vec![file("r/b.mp3"), file("r/e.mp3"), file("r/f.mp3")] };
    let out = sync_folder("r", Some(&dir), &vec![old], |n| format!("n{n}")).unwrap();
    let ids: Vec<&str> = out.iter().map(|s| s.id.as_str()).collect();
    assert_eq!(ids, ["old", "n0", "n1"]);

    // Files that are in the folder already are taken one after the other.
    let paths: Vec<String> = ["own/a.mp3", "own/b.mp3", "own/x.txt", "own/c.mp3"].map(String::from).into();
    let mut import = Import::new(&paths, "own".to_string());
    assert!(matches!(import.next(|place| format!("p{place}")), ImportAction::Finish));
    let ids: Vec<&str> = import.imported.iter().map(|s| s.id.as_str()).collect();
    assert_eq!(ids, ["p0", "p1", "p2"]);
}

#[test]
fn a_sync_leaves_one_row_for_each_file() {
    let row = |id: &str, path: &str| {
        let mut s = sound(id, Pitch::default());
        s.file = path.into();
        s
    };
    let rows = vec![row("a", "r/a.mp3"), row("b", "r/b.mp3"), row("c", "r/c.mp3")];
    let disk: Vec<ClipPath> = ["R/C.mp3", "r/a.mp3", "r/d.mp3", "r/D.mp3"].map(ClipPath::new).into();
    let out = merge_folder(&rows, &disk, |n| uid(9, n));
    let files: Vec<&str> = out.iter().map(|s| s.file.as_str()).collect();
    assert_eq!(files, ["r/a.mp3", "r/c.mp3", "r/d.mp3"]);
    for (i, a) in out.iter().enumerate() {
        assert!(out[i + 1..].iter().all(|b| !same_file(&a.file, &b.file)));
    }
    // Two rows that stood for one file before stay as they are.
    let twice = vec![row("a", "r/a.mp3"), row("b", "R/A.mp3")];
    let out = merge_folder(&twice, &vec![ClipPath::new("r/a.mp3")], |n| uid(9, n));
    assert_eq!(out.len(), 2);
}

#[test]
fn a_copy_goes_to_the_least_free_number() {
    // A gap in the numbers is filled, and numbers behind it do not count.
    let cases: [(&[&str], &str); 4] = [
        (&[], "x.mp3"),
        (&["x (1).mp3"], "x.mp3"),
        (&["x.mp3", "x (1).mp3", "x (3).mp3"], "x (2).mp3"),
        (&["x.mp3", "x (2).mp3", "y.mp3"], "x (1).mp3"),
    ];
    for (taken, expected) in cases {
        let mut import = Import::new(&vec!["D:/x.mp3".to_string()], "C:/own".to_string());
        let mut action = import.next(|_| "n".to_string());
        let mut probes = 0;
        let copied = loop {
            action = match action {
                ImportAction::Probe { name } => {
                    probes += 1;
                    import.probed(taken.contains(&name.as_str()))
                }
                ImportAction::Copy { name, .. } => break name,
                ImportAction::Finish => panic!("the file has to be copied"),
            };
        };
        assert_eq!(copied, expected);
        assert!(!taken.contains(&copied.as_str()));
        assert!(probes <= taken.len() + 1);
    }
}

#[test]
fn the_window_opens_inside_the_monitor() {
    // Room behind the cursor.
    assert_eq!(place(100, 300, 0, 1920), 114);
    // None behind it, but before it.
    assert_eq!(place(1900, 300, 0, 1920), 1900 - 14 - 300);
    // Neither: moved to the edge.
    assert_eq!(place(200, 400, 0, 500), 0);
    assert_eq!(place(300, 290, 0, 500), 0);
    assert_eq!(place(-1900, 300, -1920, 1920), -1886);
    // Larger than the monitor.
    assert_eq!(place(100, 3000, 0, 1920), 0);
    // A cursor outside the monitor.
    assert_eq!(place(5000, 300, 0, 1920), 1620);
    assert_eq!(place(-500, 300, 0, 1920), 0);
    assert!(can_place(100, 300, 0, 1920));
    assert!(!can_place(i32::MAX, 300, 0, 1920));
    assert!(!can_place(0, 300, i32::MAX, 1920));
}
