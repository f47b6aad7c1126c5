//! The configuration document: clips, profiles and the app-wide settings.

use crate::place::{first_is_place_of, place_of, place_of_is_first};
use crate::single::{Single, ONE};
use crate::text::same_text;
use vstd::prelude::*;

verus! {

/// The version this build writes. Version two dropped the bindings that needed
/// a numpad.
pub const CONFIG_VERSION: u32 = 2;

/// What the pitch key is bound to by default.
pub const PITCH_HOTKEY: &'static str = "Ctrl+Shift+Quote";

/// What the stop key is bound to by default.
pub const STOP_HOTKEY: &'static str = "Ctrl+Shift+Semicolon";

/// The device the board plays into by default.
pub const OUTPUT_DEVICE: &'static str = "CABLE Input";

/// The name of the profile a fresh configuration holds.
pub const FIRST_PROFILE: &'static str = "Default";

/// How a clip's rate walks while pitch mod is engaged. Rate is pitch here, so
/// a downward step also slows the clip down.
#[derive(Clone, Copy, Debug, PartialEq, Eq, Structural)]
pub enum Pitch {
    /// The nth consecutive press plays at `1 + step * n`. Negative walks down.
    Step { step: Single, min: Single, max: Single },
    /// Every press picks a fresh rate in range; no memory between presses.
    Random { min: Single, max: Single },
}

/// The walk of a clip that was never tuned: down by 0.12 a press, between 0.35
/// and 2.5.
pub open spec fn default_pitch() -> Pitch {
    Pitch::Step {
        step: Single { bits: 0xbdf5_c28f },
        min: Single { bits: 0x3eb3_3333 },
        max: Single { bits: 0x4020_0000 },
    }
}

impl Default for Pitch {
    fn default() -> (r: Pitch)
        ensures
            r == default_pitch(),
    {
        Pitch::Step {
            step: Single { bits: 0xbdf5_c28f },
            min: Single { bits: 0x3eb3_3333 },
            max: Single { bits: 0x4020_0000 },
        }
    }
}

/// One clip on the board.
#[derive(Debug)]
pub struct Sound {
    pub id: String,
    pub name: String,
    /// Absolute path of the audio file.
    pub file: String,
    /// The shortcut that fires the clip; empty if it has none.
    pub hotkey: String,
    pub volume: Single,
    /// Seconds of leading silence to skip.
    pub offset: Single,
    pub pitch: Pitch,
}

/// What a [`Sound`] holds.
#[verifier::ext_equal]
pub struct SoundView {
    pub id: Seq<char>,
    pub name: Seq<char>,
    pub file: Seq<char>,
    pub hotkey: Seq<char>,
    pub volume: Single,
    pub offset: Single,
    pub pitch: Pitch,
}

impl View for Sound {
    type V = SoundView;

    open spec fn view(&self) -> SoundView {
        SoundView {
            id: self.id@,
            name: self.name@,
            file: self.file@,
            hotkey: self.hotkey@,
            volume: self.volume,
            offset: self.offset,
            pitch: self.pitch,
        }
    }
}

impl Clone for Sound {
    fn clone(&self) -> (r: Sound)
        ensures
            r == *self,
    {
        Sound {
            id: self.id.clone(),
            name: self.name.clone(),
            file: self.file.clone(),
            hotkey: self.hotkey.clone(),
            volume: self.volume,
            offset: self.offset,
            pitch: self.pitch,
        }
    }
}

/// The clips of a row of sounds.
pub open spec fn sound_views(sounds: Seq<Sound>) -> Seq<SoundView> {
    sounds.map_values(|s: Sound| s@)
}

/// An independent set of sounds and bindings.
#[derive(Debug)]
pub struct Profile {
    pub id: String,
    pub name: String,
    pub sounds: Vec<Sound>,
    /// A folder this profile mirrors; empty if the profile is built by hand.
    pub folder: String,
}

/// What a [`Profile`] holds.
#[verifier::ext_equal]
pub struct ProfileView {
    pub id: Seq<char>,
    pub name: Seq<char>,
    pub sounds: Seq<SoundView>,
    pub folder: Seq<char>,
}

impl View for Profile {
    type V = ProfileView;

    open spec fn view(&self) -> ProfileView {
        ProfileView {
            id: self.id@,
            name: self.name@,
            sounds: sound_views(self.sounds@),
            folder: self.folder@,
        }
    }
}

impl Clone for Profile {
    fn clone(&self) -> (r: Profile)
        ensures
            r@ == self@,
    {
        let sounds = self.sounds.clone();
        assert(sound_views(sounds@) =~= sound_views(self.sounds@));
        Profile {
            id: self.id.clone(),
            name: self.name.clone(),
            sounds,
            folder: self.folder.clone(),
        }
    }
}

impl Default for Profile {
    fn default() -> (r: Profile)
        ensures
            r@ == (ProfileView {
                id: Seq::empty(),
                name: Seq::empty(),
                sounds: Seq::empty(),
                folder: Seq::empty(),
            }),
    {
        Profile {
            id: String::new(),
            name: String::new(),
            sounds: Vec::new(),
            folder: String::new(),
        }
    }
}

/// The profiles of a list of them.
pub open spec fn profile_views(profiles: Seq<Profile>) -> Seq<ProfileView> {
    profiles.map_values(|p: Profile| p@)
}

/// Everything the app remembers between launches.
#[derive(Debug)]
pub struct Config {
    /// The build that wrote the bindings; see [`crate::migrate`].
    pub version: u32,
    pub profiles: Vec<Profile>,
    /// The id of the profile in use.
    pub active: String,
    /// Substring of the device the call listens to.
    pub output_device: String,
    /// Substring of the user's own headphones; empty means they hear nothing.
    pub monitor_device: String,
    pub pitch_hotkey: String,
    pub stop_hotkey: String,
    pub next_profile_hotkey: String,
    pub master_volume: Single,
}

/// What a [`Config`] holds.
#[verifier::ext_equal]
pub struct ConfigView {
    pub version: u32,
    pub profiles: Seq<ProfileView>,
    pub active: Seq<char>,
    pub output_device: Seq<char>,
    pub monitor_device: Seq<char>,
    pub pitch_hotkey: Seq<char>,
    pub stop_hotkey: Seq<char>,
    pub next_profile_hotkey: Seq<char>,
    pub master_volume: Single,
}

impl View for Config {
    type V = ConfigView;

    open spec fn view(&self) -> ConfigView {
        ConfigView {
            version: self.version,
            profiles: profile_views(self.profiles@),
            active: self.active@,
            output_device: self.output_device@,
            monitor_device: self.monitor_device@,
            pitch_hotkey: self.pitch_hotkey@,
            stop_hotkey: self.stop_hotkey@,
            next_profile_hotkey: self.next_profile_hotkey@,
            master_volume: self.master_volume,
        }
    }
}

impl Clone for Config {
    fn clone(&self) -> (r: Config)
        ensures
            r@ == self@,
    {
        let profiles = self.profiles.clone();
        assert(profile_views(profiles@) =~= profile_views(self.profiles@));
        Config {
            version: self.version,
            profiles,
            active: self.active.clone(),
            output_device: self.output_device.clone(),
            monitor_device: self.monitor_device.clone(),
            pitch_hotkey: self.pitch_hotkey.clone(),
            stop_hotkey: self.stop_hotkey.clone(),
            next_profile_hotkey: self.next_profile_hotkey.clone(),
            master_volume: self.master_volume,
        }
    }
}

/// The ids of a row of sounds, in order.
pub open spec fn sound_ids(sounds: Seq<SoundView>) -> Seq<Seq<char>> {
    sounds.map_values(|s: SoundView| s.id)
}

/// The profile a configuration starts out with.
pub open spec fn first_profile(id: Seq<char>) -> ProfileView {
    ProfileView { id, name: FIRST_PROFILE@, sounds: Seq::empty(), folder: Seq::empty() }
}

/// The configuration of a fresh install, its one profile under the given id.
pub open spec fn default_config(id: Seq<char>) -> ConfigView {
    ConfigView {
        version: CONFIG_VERSION,
        profiles: seq![first_profile(id)],
        active: Seq::empty(),
        output_device: OUTPUT_DEVICE@,
        monitor_device: Seq::empty(),
        pitch_hotkey: PITCH_HOTKEY@,
        stop_hotkey: STOP_HOTKEY@,
        next_profile_hotkey: Seq::empty(),
        master_volume: Single { bits: ONE },
    }
}

impl ConfigView {
    /// The ids of the profiles, in order.
    pub open spec fn profile_ids(self) -> Seq<Seq<char>> {
        self.profiles.map_values(|p: ProfileView| p.id)
    }

    /// Where the profile in use stands: the first one under the active id, or
    /// the first of all if there is none.
    pub open spec fn active_index(self) -> Option<int> {
        match place_of(self.profile_ids(), self.active) {
            Some(i) => Some(i),
            None => if self.profiles.len() > 0 {
                Some(0)
            } else {
                None
            },
        }
    }

    /// The clip with the given id in the profile in use.
    pub open spec fn sound_spec(self, id: Seq<char>) -> Option<SoundView> {
        match self.active_index() {
            Some(i) => match place_of(sound_ids(self.profiles[i].sounds), id) {
                Some(j) => Some(self.profiles[i].sounds[j]),
                None => None,
            },
            None => None,
        }
    }

    /// The id of the profile after the active one, round the end of the list.
    pub open spec fn next_active(self) -> Option<Seq<char>> {
        match place_of(self.profile_ids(), self.active) {
            Some(i) => Some(self.profile_ids()[(i + 1) % self.profiles.len() as int]),
            None => None,
        }
    }

    /// The configuration after the next-profile key.
    pub open spec fn with_next_profile(self) -> ConfigView {
        match self.next_active() {
            Some(id) => ConfigView { active: id, ..self },
            None => self,
        }
    }
}

impl Config {
    /// The configuration of a fresh install. `id` names its one profile.
    pub fn default(id: String) -> (r: Config)
        ensures
            r@ == default_config(id@),
    {
        let profile = Profile {
            id,
            name: FIRST_PROFILE.to_owned(),
            sounds: Vec::new(),
            folder: String::new(),
        };
        let mut profiles: Vec<Profile> = Vec::new();
        profiles.push(profile);
        let r = Config {
            version: CONFIG_VERSION,
            profiles,
            active: String::new(),
            output_device: OUTPUT_DEVICE.to_owned(),
            monitor_device: String::new(),
            // No numpad, no Fn row, and nothing else claims these two.
            pitch_hotkey: PITCH_HOTKEY.to_owned(),
            stop_hotkey: STOP_HOTKEY.to_owned(),
            next_profile_hotkey: String::new(),
            master_volume: Single { bits: ONE },
        };
        assert(r.profiles@[0]@.sounds =~= Seq::empty());
        assert(r@.profiles =~= seq![first_profile(profile.id@)]);
        r
    }

    /// The first profile under the active id.
    fn active_place(&self) -> (r: Option<usize>)
        ensures
            match r {
                Some(i) => place_of(self@.profile_ids(), self@.active) == Some(i as int),
                None => place_of(self@.profile_ids(), self@.active) is None,
            },
    {
        let ghost ids = self@.profile_ids();
        let n: usize = self.profiles.len();
        for i in 0..n
            invariant
                n == self.profiles.len(),
                ids == self@.profile_ids(),
                forall|j: int| 0 <= j < i ==> ids[j] != self@.active,
        {
            if self.profiles[i].id == self.active {
                proof {
                    assert(ids[i as int] == self@.active);
                    first_is_place_of(ids, i as int);
                }
                return Some(i);
            }
            assert(ids[i as int] == self.profiles@[i as int].id@);
        }
        proof {
            place_of_is_first(ids, self@.active);
        }
        None
    }

    /// The profile in use: the one under the active id, or the first of all.
    pub fn active_profile(&self) -> (r: Option<&Profile>)
        ensures
            match r {
                Some(p) => {
                    &&& self@.active_index() is Some
                    &&& p@ == self@.profiles[self@.active_index()->0]
                },
                None => self@.active_index() is None,
            },
    {
        proof {
            place_of_is_first(self@.profile_ids(), self@.active);
        }
        match self.active_place() {
            Some(i) => Some(&self.profiles[i]),
            None => if self.profiles.len() > 0 {
                Some(&self.profiles[0])
            } else {
                None
            },
        }
    }

    /// The clip with the given id in the profile in use.
    pub fn sound(&self, id: &str) -> (r: Option<&Sound>)
        ensures
            match r {
                Some(s) => self@.sound_spec(id@) == Some(s@),
                None => self@.sound_spec(id@) is None,
            },
    {
        match self.active_profile() {
            Some(profile) => {
                let ghost ids = sound_ids(profile@.sounds);
                let n: usize = profile.sounds.len();
                for i in 0..n
                    invariant
                        n == profile.sounds.len(),
                        ids == sound_ids(profile@.sounds),
                        self@.active_index() is Some,
                        profile@ == self@.profiles[self@.active_index()->0],
                        forall|j: int| 0 <= j < i ==> ids[j] != id@,
                {
                    if same_text(profile.sounds[i].id.as_str(), id) {
                        proof {
                            assert(ids[i as int] == id@);
                            first_is_place_of(ids, i as int);
                            assert(profile@.sounds[i as int] == profile.sounds@[i as int]@);
                        }
                        return Some(&profile.sounds[i]);
                    }
                    assert(ids[i as int] == profile.sounds@[i as int].id@);
                }
                proof {
                    place_of_is_first(ids, id@);
                }
                None
            },
            None => None,
        }
    }

    /// Moves on to the next profile, round the end of the list, and gives its
    /// id. Nothing happens if the active id belongs to no profile.
    pub fn next_profile(&mut self) -> (r: Option<String>)
        ensures
            final(self)@ == old(self)@.with_next_profile(),
            match r {
                Some(id) => old(self)@.next_active() == Some(id@),
                None => old(self)@.next_active() is None,
            },
    {
        proof {
            place_of_is_first(self@.profile_ids(), self@.active);
        }
        match self.active_place() {
            Some(i) => {
                let n: usize = self.profiles.len();
                assert(self@.profile_ids().len() == n);
                let next: usize = (i + 1) % n;
                let id = self.profiles[next].id.clone();
                self.active = id.clone();
                Some(id)
            },
            None => None,
        }
    }
}

/// The configuration after `k` presses of the next-profile key.
pub open spec fn after_switches(cfg: ConfigView, k: nat) -> ConfigView
    decreases k,
{
    if k == 0 {
        cfg
    } else {
        after_switches(cfg, (k - 1) as nat).with_next_profile()
    }
}

/// Presses of the next-profile key go through the profiles in order, round and
/// round: if no two profiles share an id, `k` presses move on by `k` places, and
/// nothing changes but the profile in use.
pub proof fn switching_goes_round(cfg: ConfigView, i: int, k: nat)
    requires
        cfg.profile_ids().no_duplicates(),
        0 <= i < cfg.profiles.len(),
        cfg.active == cfg.profile_ids()[i],
    ensures
        after_switches(cfg, k) == (ConfigView {
            active: cfg.profile_ids()[(i + k) % cfg.profiles.len() as int],
            ..cfg
        }),
        after_switches(cfg, k).active_index() == Some((i + k) % cfg.profiles.len() as int),
    decreases k,
{
    let ids = cfg.profile_ids();
    let n = cfg.profiles.len() as int;
    let here = (i + k) % n;
    vstd::arithmetic::div_mod::lemma_mod_bound(i + k, n);
    if k == 0 {
        vstd::arithmetic::div_mod::lemma_small_mod(i as nat, n as nat);
    } else {
        switching_goes_round(cfg, i, (k - 1) as nat);
        let before = after_switches(cfg, (k - 1) as nat);
        let last = (i + k - 1) % n;
        vstd::arithmetic::div_mod::lemma_mod_bound(i + k - 1, n);
        assert(before.profile_ids() == ids);
        first_is_place_of(ids, last);
        vstd::arithmetic::div_mod::lemma_add_mod_noop(i + k - 1, 1, n);
        vstd::arithmetic::div_mod::lemma_add_mod_noop(last, 1, n);
        vstd::arithmetic::div_mod::lemma_mod_twice(i + k - 1, n);
        assert((last + 1) % n == here);
    }
    assert(after_switches(cfg, k).profile_ids() == ids);
    first_is_place_of(ids, here);
}

/// As many presses of the next-profile key as there are profiles come back to
/// where they started.
pub proof fn switching_comes_back(cfg: ConfigView, i: int)
    requires
        cfg.profile_ids().no_duplicates(),
        0 <= i < cfg.profiles.len(),
        cfg.active == cfg.profile_ids()[i],
    ensures
        after_switches(cfg, cfg.profiles.len()) == cfg,
{
    let n = cfg.profiles.len();
    switching_goes_round(cfg, i, n);
    vstd::arithmetic::div_mod::lemma_mod_add_multiples_vanish(i, n as int);
    vstd::arithmetic::div_mod::lemma_small_mod(i as nat, n);
}

/// The clip that is found under an id has that id, and is the first such clip of
/// the profile in use; nothing is found only if none of its clips has that id.
pub proof fn the_clip_found_is_the_one_asked_for(cfg: ConfigView, id: Seq<char>)
    ensures
        match cfg.sound_spec(id) {
            Some(s) => {
                &&& s.id == id
                &&& cfg.active_index() matches Some(i)
                &&& cfg.profiles[i].sounds.contains(s)
            },
            None => cfg.active_index() matches Some(i) ==> forall|j: int|
                0 <= j < cfg.profiles[i].sounds.len() ==> (#[trigger] cfg.profiles[i].sounds[j]).id
                    != id,
        },
        cfg.active_index() matches Some(i) ==> forall|j: int|
            0 <= j < cfg.profiles[i].sounds.len() && (#[trigger] cfg.profiles[i].sounds[j]).id == id
                && (forall|k: int|
                0 <= k < j ==> (#[trigger] cfg.profiles[i].sounds[k]).id != id)
                ==> cfg.sound_spec(id) == Some(cfg.profiles[i].sounds[j]),
{
    if let Some(i) = cfg.active_index() {
        let sounds = cfg.profiles[i].sounds;
        let ids = sound_ids(sounds);
        place_of_is_first(ids, id);
        match place_of(ids, id) {
            Some(p) => {
                assert(ids[p] == sounds[p].id);
                assert(sounds.contains(sounds[p]));
                assert forall|j: int|
                    0 <= j < sounds.len() && (#[trigger] sounds[j]).id == id && (forall|k: int|
                        0 <= k < j ==> (#[trigger] sounds[k]).id != id) implies p == j by {
                    assert(ids[j] == id);
                    assert(sounds[p].id == id);
                }
            },
            None => {
                assert forall|j: int| 0 <= j < sounds.len() implies (#[trigger] sounds[j]).id
                    != id by {
                    assert(ids[j] == sounds[j].id);
                    assert(ids.contains(ids[j]));
                }
            },
        }
    }
}

/// The profile in use is the first one under the active id; the first of all only
/// if no profile has that id; and none only if there is no profile.
pub proof fn the_profile_in_use_is_the_active_one(cfg: ConfigView)
    ensures
        match cfg.active_index() {
            Some(i) => {
                &&& 0 <= i < cfg.profiles.len()
                &&& forall|j: int| 0 <= j < i ==> (#[trigger] cfg.profiles[j]).id != cfg.active
                &&& cfg.profiles[i].id == cfg.active || (i == 0 && forall|j: int|
                    0 <= j < cfg.profiles.len() ==> (#[trigger] cfg.profiles[j]).id != cfg.active)
            },
            None => cfg.profiles.len() == 0,
        },
{
    let ids = cfg.profile_ids();
    place_of_is_first(ids, cfg.active);
    assert forall|j: int| 0 <= j < cfg.profiles.len() implies ids[j] == (
    #[trigger] cfg.profiles[j]).id && ids.contains(cfg.profiles[j].id) by {
        assert(ids[j] == cfg.profiles[j].id);
    }
}

/// The next-profile key moves on from the profile under the active id to the one
/// behind it, or from the last to the first, and touches nothing else.
pub proof fn the_next_key_moves_on_by_one(cfg: ConfigView, i: int)
    requires
        0 <= i < cfg.profiles.len(),
        cfg.profiles[i].id == cfg.active,
        forall|j: int| 0 <= j < i ==> (#[trigger] cfg.profiles[j]).id != cfg.active,
    ensures
        ({
            let next = if i + 1 == cfg.profiles.len() {
                cfg.profiles[0].id
            } else {
                cfg.profiles[i + 1].id
            };
            &&& cfg.next_active() == Some(next)
            &&& cfg.with_next_profile() == (ConfigView { active: next, ..cfg })
        }),
{
    let ids = cfg.profile_ids();
    let n = cfg.profiles.len() as int;
    assert(ids[i] == cfg.active);
    assert forall|j: int| 0 <= j < i implies ids[j] != ids[i] by {
        assert(ids[j] == cfg.profiles[j].id);
    }
    first_is_place_of(ids, i);
    if i + 1 == n {
        vstd::arithmetic::div_mod::lemma_mod_self_0(n);
    } else {
        vstd::arithmetic::div_mod::lemma_small_mod((i + 1) as nat, n as nat);
    }
}

/// If no profile has the active id, the next-profile key does nothing.
pub proof fn the_next_key_needs_a_place_to_move_from(cfg: ConfigView)
    requires
        forall|j: int| 0 <= j < cfg.profiles.len() ==> (#[trigger] cfg.profiles[j]).id
            != cfg.active,
    ensures
        cfg.next_active() is None,
        cfg.with_next_profile() == cfg,
{
    let ids = cfg.profile_ids();
    place_of_is_first(ids, cfg.active);
    if let Some(p) = place_of(ids, cfg.active) {
        assert(ids[p] == cfg.profiles[p].id);
    }
}

/// A view leaves nothing out: it has every field of what it shows, and lists show
/// each of their elements in its place.
pub proof fn views_leave_nothing_out(s: Sound, p: Profile, c: Config)
    ensures
        s@.id == s.id@ && s@.name == s.name@ && s@.file == s.file@ && s@.hotkey == s.hotkey@,
        s@.volume == s.volume && s@.offset == s.offset && s@.pitch == s.pitch,
        p@.id == p.id@ && p@.name == p.name@ && p@.folder == p.folder@,
        p@.sounds.len() == p.sounds@.len(),
        forall|i: int| 0 <= i < p.sounds@.len() ==> #[trigger] p@.sounds[i] == p.sounds@[i]@,
        c@.version == c.version && c@.active == c.active@,
        c@.profiles.len() == c.profiles@.len(),
        forall|i: int| 0 <= i < c.profiles@.len() ==> #[trigger] c@.profiles[i] == c.profiles@[i]@,
        c@.output_device == c.output_device@ && c@.monitor_device == c.monitor_device@,
        c@.pitch_hotkey == c.pitch_hotkey@ && c@.stop_hotkey == c.stop_hotkey@,
        c@.next_profile_hotkey == c.next_profile_hotkey@,
        c@.master_volume == c.master_volume,
{
}

} // verus!
