//! What happens at launch, and what the tray menu offers.

use crate::config::{
    default_config, first_profile, Config, ConfigView, SoundView, CONFIG_VERSION,
};
use crate::migrate::{migrate, migrated};
use crate::text::same_text;
use vstd::prelude::*;

verus! {

/// The stored configuration, or that of a fresh install if there is none that
/// can be read.
pub open spec fn loaded(stored: Option<ConfigView>, id: Seq<char>) -> ConfigView {
    match stored {
        Some(cfg) => cfg,
        None => default_config(id),
    }
}

/// The configuration with a profile in it.
pub open spec fn with_profile(cfg: ConfigView, id: Seq<char>) -> ConfigView {
    if cfg.profiles.len() == 0 {
        ConfigView { profiles: seq![first_profile(id)], ..cfg }
    } else {
        cfg
    }
}

/// The configuration with a profile chosen: the first, if none was.
pub open spec fn with_active(cfg: ConfigView) -> ConfigView {
    if cfg.active.len() == 0 {
        ConfigView { active: cfg.profiles[0].id, ..cfg }
    } else {
        cfg
    }
}

/// The configuration that the app runs with. `id` names the first profile, if
/// there is none.
pub open spec fn launched(stored: Option<ConfigView>, id: Seq<char>) -> ConfigView {
    migrated(with_active(with_profile(loaded(stored, id), id)))
}

/// Whether a launch saves the configuration: if there was no file yet, or one
/// that is older than the current layout.
pub open spec fn saves(stored: Option<ConfigView>, first_run: bool, id: Seq<char>) -> bool {
    first_run || loaded(stored, id).version < CONFIG_VERSION
}

/// Whether a launch has the app started with the system from now on.
pub open spec fn opts_in(first_run: bool) -> bool {
    first_run
}

/// Whether the launch after this one finds no file either, if this one did what
/// it was told.
pub open spec fn next_is_first_run(first_run: bool, saved: bool) -> bool {
    first_run && !saved
}

/// What to do at launch.
#[derive(Debug)]
pub struct Launch {
    /// The configuration to run with.
    pub config: Config,
    /// Whether to save it.
    pub save: bool,
    /// Whether to have the app started with the system from now on. This
    /// happens once: doing it every launch would undo the user turning it off.
    pub opt_in: bool,
    /// Whether to show the window.
    pub reveal: bool,
}

/// The configuration that a launch starts from, if one was stored.
pub open spec fn stored_view(stored: Option<Config>) -> Option<ConfigView> {
    match stored {
        Some(cfg) => Some(cfg@),
        None => None,
    }
}

/// Prepares a launch. `stored` is the configuration that was read, if it could
/// be; `first_run` tells whether there was no file at all; `id` is for the
/// first profile of a configuration that has none.
pub fn launch(stored: Option<Config>, first_run: bool, id: String) -> (r: Launch)
    ensures
        r.config@ == launched(stored_view(stored), id@),
        r.save == saves(stored_view(stored), first_run, id@),
        r.opt_in == opts_in(first_run),
        r.reveal == first_run,
{
    let mut cfg = match stored {
        Some(cfg) => cfg,
        None => Config::default(id.clone()),
    };
    let ghost start = cfg@;
    if cfg.profiles.len() == 0 {
        let fresh = Config::default(id);
        cfg.profiles = fresh.profiles;
    }
    assert(cfg@ =~= with_profile(start, id@));
    if cfg.active.as_str().is_empty() {
        assert(cfg@.profiles.len() == cfg.profiles@.len());
        cfg.active = cfg.profiles[0].id.clone();
    }
    assert(cfg@ =~= with_active(with_profile(start, id@)));
    let moved = migrate(&mut cfg);
    Launch { config: cfg, save: first_run || moved, opt_in: first_run, reveal: first_run }
}

/// An item of the tray menu.
#[derive(Clone, Copy, Debug, PartialEq, Eq, Structural)]
pub enum MenuItem {
    Show,
    Stop,
    Autostart,
    Quit,
}

/// The id under which the menu knows an item.
pub open spec fn menu_id(item: MenuItem) -> Seq<char> {
    match item {
        MenuItem::Show => "show"@,
        MenuItem::Stop => "stop"@,
        MenuItem::Autostart => "autostart"@,
        MenuItem::Quit => "quit"@,
    }
}

/// The item of the tray menu with the given id, if there is one.
pub fn menu_item(id: &str) -> (r: Option<MenuItem>)
    ensures
        match r {
            Some(item) => id@ == menu_id(item),
            None => forall|item: MenuItem| id@ != menu_id(item),
        },
{
    if same_text(id, "show") {
        Some(MenuItem::Show)
    } else if same_text(id, "stop") {
        Some(MenuItem::Stop)
    } else if same_text(id, "autostart") {
        Some(MenuItem::Autostart)
    } else if same_text(id, "quit") {
        Some(MenuItem::Quit)
    } else {
        None
    }
}

/// However the file was edited, the app runs with a profile in use.
pub proof fn a_profile_is_always_in_use(stored: Option<ConfigView>, id: Seq<char>)
    ensures
        launched(stored, id).profiles.len() > 0,
        launched(stored, id).active_index() is Some,
{
}

/// A configuration that the app has run with is left alone at the next launch.
pub proof fn launching_again_changes_nothing(
    stored: Option<ConfigView>,
    id: Seq<char>,
    other_id: Seq<char>,
)
    ensures
        launched(Some(launched(stored, id)), other_id) == launched(stored, id),
        launched(stored, id).version >= CONFIG_VERSION,
{
    let before = with_active(with_profile(loaded(stored, id), id));
    assert(before.profiles.len() > 0);
    assert(migrated(before).profiles[0].id == before.profiles[0].id);
    assert(with_active(migrated(before)) =~= migrated(before));
}

/// The user is opted in once: a launch that does so also saves, and the next one
/// then finds the file and leaves the choice alone.
pub proof fn opting_in_happens_once(stored: Option<ConfigView>, first_run: bool, id: Seq<char>)
    ensures
        opts_in(first_run) ==> saves(stored, first_run, id),
        !opts_in(next_is_first_run(first_run, saves(stored, first_run, id))),
{
}

/// A configuration that lacks nothing is run with as it was stored.
pub proof fn a_sound_configuration_is_left_alone(cfg: ConfigView, id: Seq<char>)
    requires
        cfg.profiles.len() > 0,
        cfg.active.len() > 0,
        cfg.version >= CONFIG_VERSION,
    ensures
        launched(Some(cfg), id) == cfg,
        !saves(Some(cfg), false, id),
{
}

/// A configuration with a profile and a choice of one is only migrated.
pub proof fn nothing_else_changes_at_launch(cfg: ConfigView, id: Seq<char>)
    requires
        cfg.profiles.len() > 0,
        cfg.active.len() > 0,
    ensures
        launched(Some(cfg), id) == migrated(cfg),
{
}

/// A launch starts from what was stored, if anything was.
pub proof fn a_launch_starts_from_what_was_stored(stored: Option<Config>)
    ensures
        stored is None ==> stored_view(stored) is None,
        stored matches Some(cfg) ==> stored_view(stored) == Some(cfg@),
{
}

/// What a launch repairs is only what is missing. The settings stay; profiles that
/// are there stay, with their clips and all that these hold but shortcuts, and so
/// does the choice of one; a choice that is missing falls on the first; and where there is
/// no profile there is one without clips afterwards, under the given id.
pub proof fn a_launch_repairs_what_is_missing(cfg: ConfigView, id: Seq<char>)
    ensures
        ({
            let now = launched(Some(cfg), id);
            &&& now.output_device == cfg.output_device
            &&& now.monitor_device == cfg.monitor_device
            &&& now.master_volume == cfg.master_volume
            &&& cfg.version >= CONFIG_VERSION ==> {
                &&& now.version == cfg.version
                &&& now.pitch_hotkey == cfg.pitch_hotkey
                &&& now.stop_hotkey == cfg.stop_hotkey
                &&& now.next_profile_hotkey == cfg.next_profile_hotkey
                &&& cfg.profiles.len() > 0 ==> now.profiles == cfg.profiles
            }
            &&& cfg.profiles.len() > 0 ==> {
                &&& now.profiles.len() == cfg.profiles.len()
                &&& forall|i: int|
                    0 <= i < cfg.profiles.len() ==> {
                        &&& (#[trigger] now.profiles[i]).id == cfg.profiles[i].id
                        &&& now.profiles[i].name == cfg.profiles[i].name
                        &&& now.profiles[i].folder == cfg.profiles[i].folder
                        &&& now.profiles[i].sounds.len() == cfg.profiles[i].sounds.len()
                        &&& forall|j: int|
                            0 <= j < cfg.profiles[i].sounds.len() ==> {
                                let row = #[trigger] now.profiles[i].sounds[j];
                                row == SoundView {
                                    hotkey: row.hotkey,
                                    ..cfg.profiles[i].sounds[j]
                                }
                            }
                    }
            }
            &&& cfg.profiles.len() == 0 ==> {
                &&& now.profiles.len() == 1
                &&& now.profiles[0].id == id
                &&& now.profiles[0].name == "Default"@
                &&& now.profiles[0].sounds.len() == 0
                &&& now.profiles[0].folder.len() == 0
            }
            &&& cfg.active.len() > 0 ==> now.active == cfg.active
            &&& cfg.active.len() == 0 ==> now.active == now.profiles[0].id
        }),
{
}

/// Without a configuration that can be read, the app starts with one empty
/// profile, in use, and the documented keys and device.
pub proof fn a_launch_from_nothing_is_a_fresh_install(id: Seq<char>)
    requires
        id.len() > 0,
    ensures
        ({
            let now = launched(None, id);
            &&& now.version == 2
            &&& now.profiles.len() == 1
            &&& now.profiles[0].id == id
            &&& now.profiles[0].name == "Default"@
            &&& now.profiles[0].sounds.len() == 0
            &&& now.profiles[0].folder.len() == 0
            &&& now.active == id
            &&& now.output_device == "CABLE Input"@
            &&& now.monitor_device.len() == 0
            &&& now.pitch_hotkey == "Ctrl+Shift+Quote"@
            &&& now.stop_hotkey == "Ctrl+Shift+Semicolon"@
            &&& now.next_profile_hotkey.len() == 0
            &&& now.master_volume.bits == 0x3f80_0000
        }),
{
}

/// A launch saves exactly if it was the first or changed the layout of what was
/// stored, and opts in exactly if it was the first.
pub proof fn a_launch_saves_what_it_changed(
    stored: Option<ConfigView>,
    first_run: bool,
    id: Seq<char>,
)
    ensures
        saves(stored, first_run, id) <==> first_run || (stored matches Some(cfg) && launched(
            stored,
            id,
        ).version != cfg.version),
        opts_in(first_run) <==> first_run,
{
}

/// No two items of the tray menu share an id.
pub proof fn menu_ids_differ(a: MenuItem, b: MenuItem)
    requires
        menu_id(a) == menu_id(b),
    ensures
        a == b,
{
    reveal_strlit("show");
    reveal_strlit("stop");
    reveal_strlit("autostart");
    reveal_strlit("quit");
    assert("show"@[1] == 'h' && "stop"@[1] == 't' && "quit"@[0] == 'q' && "autostart"@.len() == 9);
}

} // verus!
