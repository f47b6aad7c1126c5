//! Which shortcuts are registered, and what each of them does.

use crate::config::{sound_ids, Config, ConfigView, SoundView};
use crate::layout::{
    key, key_names, key_place, names_are_distinct, retarget, retargeted, scan_codes, LAYOUT_SIZE,
};
use crate::place::{filter_places, place_of, place_of_is_first};
use crate::text::texts;
use vstd::prelude::*;

verus! {

/// What a shortcut does.
#[derive(Debug)]
pub enum Action {
    /// Engages or disengages pitch mod.
    TogglePitch,
    /// Stops whatever plays.
    Stop,
    /// Moves on to the next profile.
    NextProfile,
    /// Plays a clip.
    Play { id: String },
}

/// What an [`Action`] does.
#[verifier::ext_equal]
pub enum ActionView {
    TogglePitch,
    Stop,
    NextProfile,
    Play { id: Seq<char> },
}

impl View for Action {
    type V = ActionView;

    open spec fn view(&self) -> ActionView {
        match self {
            Action::TogglePitch => ActionView::TogglePitch,
            Action::Stop => ActionView::Stop,
            Action::NextProfile => ActionView::NextProfile,
            Action::Play { id } => ActionView::Play { id: id@ },
        }
    }
}

impl Clone for Action {
    fn clone(&self) -> (r: Action)
        ensures
            r@ == self@,
    {
        match self {
            Action::TogglePitch => Action::TogglePitch,
            Action::Stop => Action::Stop,
            Action::NextProfile => Action::NextProfile,
            Action::Play { id } => Action::Play { id: id.clone() },
        }
    }
}

/// A shortcut that is to be registered.
#[derive(Debug)]
pub struct Binding {
    /// The shortcut as the configuration has it, under which a refusal is
    /// reported.
    pub key: String,
    /// The shortcut that is registered: the key this layout actually produces.
    pub target: String,
    pub action: Action,
}

/// A shortcut of the configuration and what it does.
pub type Claim = (Seq<char>, ActionView);

/// What the app-wide keys and then the clips of the profile in use lay claim
/// to.
pub open spec fn claims(cfg: ConfigView) -> Seq<Claim> {
    seq![
        (cfg.pitch_hotkey, ActionView::TogglePitch),
        (cfg.stop_hotkey, ActionView::Stop),
        (cfg.next_profile_hotkey, ActionView::NextProfile),
    ] + match cfg.active_index() {
        Some(i) => sound_claims(cfg.profiles[i].sounds),
        None => Seq::empty(),
    }
}

/// What the clips lay claim to.
pub open spec fn sound_claims(sounds: Seq<SoundView>) -> Seq<Claim> {
    sounds.map_values(|s: SoundView| (s.hotkey, ActionView::Play { id: s.id }))
}

/// The shortcuts that are to be registered, in order: every claim that names a
/// key.
pub open spec fn wanted(cfg: ConfigView) -> Seq<Claim> {
    claims(cfg).filter(|c: Claim| c.0.len() > 0)
}

/// What bindings register, and what for.
pub open spec fn binding_claims(bindings: Seq<Binding>) -> Seq<Claim> {
    bindings.map_values(|b: Binding| (b.key@, b.action@))
}

/// Whether `target` is the shortcut `key` rewritten for the layout that `to_vk`
/// tells.
pub open spec fn is_target<F: Fn(u32) -> u16>(to_vk: F, key: Seq<char>, target: Seq<char>) -> bool {
    match key_place(key) {
        Some(i) => exists|vk: u16| #[trigger]
            call_ensures(to_vk, (scan_codes()[i],), vk) && target == retargeted(key, vk),
        None => target == key,
    }
}

/// The keys of the bindings that were not accepted, in order.
pub open spec fn refused_keys(bindings: Seq<Binding>, accepted: Seq<bool>) -> Seq<Seq<char>>
    decreases bindings.len(),
{
    if bindings.len() == 0 {
        Seq::empty()
    } else {
        let before = refused_keys(bindings.drop_last(), accepted);
        if accepted[bindings.len() - 1] {
            before
        } else {
            before.push(bindings.last().key@)
        }
    }
}

/// Lays claim to a key, unless it is empty.
fn claim<F: Fn(u32) -> u16>(out: &mut Vec<Binding>, key: &String, action: Action, to_vk: &F)
    requires
        forall|i: int| 0 <= i < LAYOUT_SIZE ==> call_requires(to_vk, (#[trigger] scan_codes()[i],)),
        forall|i: int|
            0 <= i < old(out).len() ==> is_target(
                *to_vk,
                (#[trigger] old(out)@[i]).key@,
                old(out)@[i].target@,
            ),
    ensures
        binding_claims(final(out)@) == binding_claims(old(out)@) + seq![(key@, action@)].filter(
            |c: Claim| c.0.len() > 0,
        ),
        forall|i: int|
            0 <= i < final(out).len() ==> is_target(
                *to_vk,
                (#[trigger] final(out)@[i]).key@,
                final(out)@[i].target@,
            ),
{
    let ghost before = out@;
    let ghost keep = |c: Claim| c.0.len() > 0;
    let ghost c: Claim = (key@, action@);
    proof {
        reveal(Seq::filter);
        assert(seq![c].drop_last() =~= Seq::empty());
        assert(seq![c].drop_last().filter(keep) =~= Seq::empty());
        assert(keep(c) == (key@.len() > 0));
        assert(seq![c].filter(keep) =~= if key@.len() > 0 {
            seq![c]
        } else {
            Seq::empty()
        });
    }
    if key.as_str().is_empty() {
        assert(binding_claims(out@) =~= binding_claims(before) + seq![c].filter(keep));
        return;
    }
    proof {
        if let Some(i) = key_place(key@) {
            place_of_is_first(key_names(), crate::layout::key(key@));
            assert(call_requires(to_vk, (scan_codes()[i],)));
        }
    }
    let target = retarget(key.as_str(), to_vk);
    out.push(Binding { key: key.clone(), target, action });
    proof {
        assert(binding_claims(out@) =~= binding_claims(before) + seq![c].filter(keep));
        assert forall|i: int| 0 <= i < out.len() implies is_target(
            *to_vk,
            (#[trigger] out@[i]).key@,
            out@[i].target@,
        ) by {
            if i < before.len() {
                assert(out@[i] == before[i]);
            }
        }
    }
}

/// The shortcuts to register for a configuration, in the order in which to
/// register them. `to_vk` maps a scan code to the virtual key the layout puts
/// there.
///
/// The three app-wide controls come first: the system gives a combination to
/// whoever asks for it first, so a sound bound over the stop key would win and
/// leave stop silently dead.
pub fn bindings<F: Fn(u32) -> u16>(cfg: &Config, to_vk: F) -> (r: Vec<Binding>)
    requires
        forall|i: int| 0 <= i < LAYOUT_SIZE ==> call_requires(to_vk, (#[trigger] scan_codes()[i],)),
    ensures
        binding_claims(r@) == wanted(cfg@),
        forall|i: int|
            0 <= i < r.len() ==> is_target(to_vk, (#[trigger] r@[i]).key@, r@[i].target@),
{
    let ghost keep = |c: Claim| c.0.len() > 0;
    let ghost c = cfg@;
    let ghost a: Claim = (c.pitch_hotkey, ActionView::TogglePitch);
    let ghost b: Claim = (c.stop_hotkey, ActionView::Stop);
    let ghost d: Claim = (c.next_profile_hotkey, ActionView::NextProfile);
    let ghost controls = seq![a, b, d];
    let mut out: Vec<Binding> = Vec::new();
    claim(&mut out, &cfg.pitch_hotkey, Action::TogglePitch, &to_vk);
    claim(&mut out, &cfg.stop_hotkey, Action::Stop, &to_vk);
    claim(&mut out, &cfg.next_profile_hotkey, Action::NextProfile, &to_vk);
    proof {
        Seq::filter_distributes_over_add(seq![a], seq![b], keep);
        Seq::filter_distributes_over_add(seq![a] + seq![b], seq![d], keep);
        assert(seq![a] + seq![b] + seq![d] =~= controls);
        assert(binding_claims(out@) =~= controls.filter(keep));
    }
    match cfg.active_profile() {
        Some(profile) => {
            let ghost all = sound_claims(profile@.sounds);
            let n: usize = profile.sounds.len();
            assert(controls + all.take(0) =~= controls);
            for i in 0..n
                invariant
                    n == profile.sounds.len(),
                    all == sound_claims(profile@.sounds),
                    keep == |c: Claim| c.0.len() > 0,
                    forall|i: int|
                        0 <= i < LAYOUT_SIZE ==> call_requires(
                            to_vk,
                            (#[trigger] scan_codes()[i],),
                        ),
                    binding_claims(out@) == (controls + all.take(i as int)).filter(keep),
                    forall|i: int|
                        0 <= i < out.len() ==> is_target(
                            to_vk,
                            (#[trigger] out@[i]).key@,
                            out@[i].target@,
                        ),
            {
                let sound = &profile.sounds[i];
                claim(&mut out, &sound.hotkey, Action::Play { id: sound.id.clone() }, &to_vk);
                proof {
                    assert(profile@.sounds[i as int] == sound@);
                    let last: Claim = (sound@.hotkey, ActionView::Play { id: sound@.id });
                    assert(all[i as int] == last);
                    Seq::filter_distributes_over_add(
                        controls + all.take(i as int),
                        seq![last],
                        keep,
                    );
                    assert(controls + all.take(i as int) + seq![last] =~= controls + all.take(
                        i + 1,
                    ));
                }
            }
            proof {
                assert(all.take(n as int) =~= all);
                assert(claims(cfg@) =~= controls + all);
            }
        },
        None => {
            assert(claims(cfg@) =~= controls);
        },
    }
    out
}

/// The shortcuts that were refused, as the configuration has them: the only way
/// to find out that something else owns them. `accepted` tells for each binding
/// whether it was registered.
pub fn refused(bindings: &Vec<Binding>, accepted: &Vec<bool>) -> (r: Vec<String>)
    requires
        bindings.len() == accepted.len(),
    ensures
        texts(r@) == refused_keys(bindings@, accepted@),
{
    let mut out: Vec<String> = Vec::new();
    let n: usize = bindings.len();
    assert(texts(out@) =~= refused_keys(bindings@.take(0), accepted@));
    for i in 0..n
        invariant
            n == bindings.len(),
            n == accepted.len(),
            texts(out@) == refused_keys(bindings@.take(i as int), accepted@),
    {
        let ghost before = texts(out@);
        proof {
            assert(bindings@.take(i + 1).drop_last() =~= bindings@.take(i as int));
            assert(bindings@.take(i + 1).last() == bindings@[i as int]);
        }
        if !accepted[i] {
            out.push(bindings[i].key.clone());
            assert(texts(out@) =~= before.push(bindings@[i as int].key@));
        }
    }
    assert(bindings@.take(n as int) =~= bindings@);
    out
}

/// Whether a claim is that of a clip.
pub open spec fn is_sound_claim(c: Claim) -> bool {
    c.1 is Play
}

/// The shortcuts that claims ask for.
pub open spec fn claimed_keys(list: Seq<Claim>) -> Seq<Seq<char>> {
    list.map_values(|c: Claim| c.0)
}

/// Only keys are bound: no shortcut that is registered is empty.
pub proof fn no_empty_key_is_bound(cfg: ConfigView)
    ensures
        forall|i: int| 0 <= i < wanted(cfg).len() ==> (#[trigger] wanted(cfg)[i]).0.len() > 0,
{
    let keep = |c: Claim| c.0.len() > 0;
    assert forall|i: int| 0 <= i < wanted(cfg).len() implies (#[trigger] wanted(cfg)[i]).0.len()
        > 0 by {
        claims(cfg).lemma_filter_pred(keep, i);
        assert(keep(wanted(cfg)[i]));
    }
}

/// The three app-wide keys that are set, in order, stand before those of the
/// clips.
proof fn controls_and_sounds(cfg: ConfigView) -> (parts: (Seq<Claim>, Seq<Claim>))
    ensures
        wanted(cfg) == parts.0 + parts.1,
        parts.0 == seq![
            (cfg.pitch_hotkey, ActionView::TogglePitch),
            (cfg.stop_hotkey, ActionView::Stop),
            (cfg.next_profile_hotkey, ActionView::NextProfile),
        ].filter(|c: Claim| c.0.len() > 0),
        forall|i: int| 0 <= i < parts.0.len() ==> !is_sound_claim(#[trigger] parts.0[i]),
        forall|i: int| 0 <= i < parts.1.len() ==> is_sound_claim(#[trigger] parts.1[i]),
{
    let keep = |c: Claim| c.0.len() > 0;
    let controls: Seq<Claim> = seq![
        (cfg.pitch_hotkey, ActionView::TogglePitch),
        (cfg.stop_hotkey, ActionView::Stop),
        (cfg.next_profile_hotkey, ActionView::NextProfile),
    ];
    let sounds: Seq<Claim> = match cfg.active_index() {
        Some(i) => sound_claims(cfg.profiles[i].sounds),
        None => Seq::empty(),
    };
    Seq::filter_distributes_over_add(controls, sounds, keep);
    let a = controls.filter(keep);
    let b = sounds.filter(keep);
    assert forall|i: int| 0 <= i < a.len() implies !is_sound_claim(#[trigger] a[i]) by {
        assert(a.contains(a[i]));
        controls.lemma_filter_contains_rev(keep, a[i]);
        let k = choose|k: int| 0 <= k < controls.len() && controls[k] == a[i];
        assert(k == 0 || k == 1 || k == 2);
    }
    assert forall|i: int| 0 <= i < b.len() implies is_sound_claim(#[trigger] b[i]) by {
        assert(b.contains(b[i]));
        sounds.lemma_filter_contains_rev(keep, b[i]);
    }
    (a, b)
}

/// The app-wide controls bind first: nothing that a clip asks for is asked for
/// before them.
pub proof fn controls_bind_first(cfg: ConfigView, i: int, j: int)
    requires
        0 <= i < j < wanted(cfg).len(),
        !is_sound_claim(wanted(cfg)[j]),
    ensures
        !is_sound_claim(wanted(cfg)[i]),
{
    let (a, b) = controls_and_sounds(cfg);
    if j >= a.len() {
        assert(wanted(cfg)[j] == b[j - a.len()]);
    }
    assert(wanted(cfg)[i] == a[i]);
}

/// A sound bound over an app-wide key does not win it: whoever asks for the
/// key of a control first is a control. The stop key in particular goes to
/// stop, unless it is the pitch key too.
pub proof fn no_sound_takes_a_control(cfg: ConfigView, key: Seq<char>)
    requires
        key.len() > 0,
        key == cfg.pitch_hotkey || key == cfg.stop_hotkey || key == cfg.next_profile_hotkey,
    ensures
        place_of(claimed_keys(wanted(cfg)), key) matches Some(i) && !is_sound_claim(wanted(cfg)[i])
            && (key == cfg.stop_hotkey && key != cfg.pitch_hotkey ==> wanted(cfg)[i].1
            == ActionView::Stop) && (key == cfg.pitch_hotkey ==> wanted(cfg)[i].1
            == ActionView::TogglePitch),
{
    let (a, b) = controls_and_sounds(cfg);
    let all = wanted(cfg);
    let keys = claimed_keys(all);
    let keep = |c: Claim| c.0.len() > 0;
    let p: Claim = (cfg.pitch_hotkey, ActionView::TogglePitch);
    let q: Claim = (cfg.stop_hotkey, ActionView::Stop);
    let r: Claim = (cfg.next_profile_hotkey, ActionView::NextProfile);
    let controls = seq![p, q, r];
    let m = if key == cfg.pitch_hotkey {
        0int
    } else if key == cfg.stop_hotkey {
        1int
    } else {
        2int
    };
    assert(keep(controls[m]));
    controls.lemma_filter_contains(keep, m);
    let k = choose|k: int| 0 <= k < a.len() && a[k] == controls[m];
    assert(all[k] == a[k]);
    assert(keys[k] == key);
    place_of_is_first(keys, key);
    let i = place_of(keys, key)->0;
    assert(i <= k);
    assert(all[i] == a[i]);
    assert(all[i].0 == key);
    assert(a.contains(a[i]));
    controls.lemma_filter_contains_rev(keep, a[i]);
    // The controls that are kept stand in their order.
    reveal_with_fuel(Seq::filter, 4);
    assert(controls.drop_last() =~= seq![p, q]);
    assert(seq![p, q].drop_last() =~= seq![p]);
    assert(seq![p].drop_last() =~= Seq::empty());
    assert(keep(p) == (cfg.pitch_hotkey.len() > 0));
    assert(keep(q) == (cfg.stop_hotkey.len() > 0));
    assert(keep(r) == (cfg.next_profile_hotkey.len() > 0));
}

/// Exactly the clips of the profile in use are bound: a shortcut that plays a
/// clip is that of such a clip, and every such clip with a shortcut has it
/// registered.
pub proof fn exactly_the_profile_in_use_is_bound(cfg: ConfigView, c: Claim)
    requires
        is_sound_claim(c),
        cfg.active_index() is Some,
    ensures
        wanted(cfg).contains(c) <==> c.0.len() > 0 && sound_claims(
            cfg.profiles[cfg.active_index()->0].sounds,
        ).contains(c),
{
    let keep = |c: Claim| c.0.len() > 0;
    let all = claims(cfg);
    let sounds = sound_claims(cfg.profiles[cfg.active_index()->0].sounds);
    assert(all.len() == 3 + sounds.len());
    if wanted(cfg).contains(c) {
        all.lemma_filter_contains_rev(keep, c);
        let i = choose|i: int| 0 <= i < wanted(cfg).len() && wanted(cfg)[i] == c;
        all.lemma_filter_pred(keep, i);
        assert(keep(wanted(cfg)[i]));
        let k = choose|k: int| 0 <= k < all.len() && all[k] == c;
        assert(k >= 3);
        assert(sounds[k - 3] == c);
    }
    if c.0.len() > 0 && sounds.contains(c) {
        let k = choose|k: int| 0 <= k < sounds.len() && sounds[k] == c;
        assert(all[k + 3] == c);
        assert(keep(all[k + 3]));
        all.lemma_filter_contains(keep, k + 3);
    }
}

/// A shortcut that plays a clip always finds it: the clip it names is one of
/// the profile in use.
pub proof fn a_bound_clip_is_there(cfg: ConfigView, i: int)
    requires
        0 <= i < wanted(cfg).len(),
        is_sound_claim(wanted(cfg)[i]),
    ensures
        cfg.sound_spec(wanted(cfg)[i].1->id) is Some,
{
    let keep = |c: Claim| c.0.len() > 0;
    let c = wanted(cfg)[i];
    assert(wanted(cfg).contains(c));
    place_of_is_first(cfg.profile_ids(), cfg.active);
    if cfg.active_index() is None {
        claims(cfg).lemma_filter_contains_rev(keep, c);
    } else {
        exactly_the_profile_in_use_is_bound(cfg, c);
        let sounds = cfg.profiles[cfg.active_index()->0].sounds;
        let k = choose|k: int| 0 <= k < sounds.len() && sound_claims(sounds)[k] == c;
        let ids = sound_ids(sounds);
        assert(ids[k] == c.1->id);
        place_of_is_first(ids, c.1->id);
    }
}

/// Shortcuts are registered in order: that of pitch mod, of stop and of the next
/// profile, then those of the clips of the profile in use in the order in which
/// they stand there. Each that is set is registered once and for what it is set
/// for, and none that is empty is. Gives for each registration where it comes
/// from: the three controls count from zero, the clips from three on.
pub proof fn shortcuts_are_registered_in_order(cfg: ConfigView) -> (at: Seq<int>)
    ensures
        ({
            let sounds = match cfg.active_index() {
                Some(i) => cfg.profiles[i].sounds,
                None => Seq::empty(),
            };
            &&& at.len() == wanted(cfg).len()
            &&& forall|k: int, l: int|
                0 <= k < l < at.len() ==> #[trigger] at[k] < #[trigger] at[l]
            &&& forall|k: int|
                0 <= k < at.len() ==> 0 <= #[trigger] at[k] < 3 + sounds.len() && wanted(cfg)[k]
                    == if at[k] == 0 {
                    (cfg.pitch_hotkey, ActionView::TogglePitch)
                } else if at[k] == 1 {
                    (cfg.stop_hotkey, ActionView::Stop)
                } else if at[k] == 2 {
                    (cfg.next_profile_hotkey, ActionView::NextProfile)
                } else {
                    (sounds[at[k] - 3].hotkey, ActionView::Play { id: sounds[at[k] - 3].id })
                }
            &&& at.contains(0) <==> cfg.pitch_hotkey.len() > 0
            &&& at.contains(1) <==> cfg.stop_hotkey.len() > 0
            &&& at.contains(2) <==> cfg.next_profile_hotkey.len() > 0
            &&& forall|j: int|
                0 <= j < sounds.len() ==> (at.contains(j + 3) <==> (
                #[trigger] sounds[j]).hotkey.len() > 0)
        }),
{
    let keep = |c: Claim| c.0.len() > 0;
    let all = claims(cfg);
    let sounds = match cfg.active_index() {
        Some(i) => cfg.profiles[i].sounds,
        None => Seq::empty(),
    };
    let at = filter_places(all, keep);
    assert(all.len() == 3 + sounds.len());
    assert(all[0] == (cfg.pitch_hotkey, ActionView::TogglePitch));
    assert(all[1] == (cfg.stop_hotkey, ActionView::Stop));
    assert(all[2] == (cfg.next_profile_hotkey, ActionView::NextProfile));
    assert forall|i: int| 0 <= i < all.len() implies (at.contains(i) <==> (
    #[trigger] all[i]).0.len() > 0) by {
        assert(keep(all[i]) == (all[i].0.len() > 0));
        if at.contains(i) {
            let k = choose|k: int| 0 <= k < at.len() && at[k] == i;
            assert(keep(all[at[k]]));
        }
    }
    assert forall|j: int| 0 <= j < sounds.len() implies all[j + 3] == (
        (#[trigger] sounds[j]).hotkey,
        ActionView::Play { id: sounds[j].id },
    ) by {}
    assert forall|j: int| 0 <= j < sounds.len() implies (at.contains(j + 3) <==> (
    #[trigger] sounds[j]).hotkey.len() > 0) by {
        assert(all[j + 3].0 == sounds[j].hotkey);
    }
    assert forall|k: int| 0 <= k < at.len() implies 0 <= #[trigger] at[k] < 3 + sounds.len()
        && wanted(cfg)[k] == if at[k] == 0 {
        (cfg.pitch_hotkey, ActionView::TogglePitch)
    } else if at[k] == 1 {
        (cfg.stop_hotkey, ActionView::Stop)
    } else if at[k] == 2 {
        (cfg.next_profile_hotkey, ActionView::NextProfile)
    } else {
        (sounds[at[k] - 3].hotkey, ActionView::Play { id: sounds[at[k] - 3].id })
    } by {
        assert(wanted(cfg)[k] == all[at[k]]);
        if at[k] >= 3 {
            let j = at[k] - 3;
            assert(all[j + 3] == (sounds[j].hotkey, ActionView::Play { id: sounds[j].id }));
        }
    }
    at
}

/// What is reported as refused are the keys of exactly the bindings that were not
/// accepted, in their order. Gives where they stand.
pub proof fn exactly_what_was_refused_is_reported(
    bindings: Seq<Binding>,
    accepted: Seq<bool>,
) -> (at: Seq<int>)
    requires
        bindings.len() == accepted.len(),
    ensures
        at.len() == refused_keys(bindings, accepted).len(),
        forall|k: int, l: int| 0 <= k < l < at.len() ==> #[trigger] at[k] < #[trigger] at[l],
        forall|k: int|
            0 <= k < at.len() ==> 0 <= #[trigger] at[k] < bindings.len() && refused_keys(
                bindings,
                accepted,
            )[k] == bindings[at[k]].key@,
        forall|i: int| 0 <= i < bindings.len() ==> (at.contains(i) <==> !#[trigger] accepted[i]),
{
    refused_places(bindings, accepted)
}

proof fn refused_places(bindings: Seq<Binding>, accepted: Seq<bool>) -> (at: Seq<int>)
    requires
        bindings.len() <= accepted.len(),
    ensures
        at.len() == refused_keys(bindings, accepted).len(),
        forall|k: int, l: int| 0 <= k < l < at.len() ==> #[trigger] at[k] < #[trigger] at[l],
        forall|k: int|
            0 <= k < at.len() ==> 0 <= #[trigger] at[k] < bindings.len() && refused_keys(
                bindings,
                accepted,
            )[k] == bindings[at[k]].key@,
        forall|i: int| 0 <= i < bindings.len() ==> (at.contains(i) <==> !#[trigger] accepted[i]),
    decreases bindings.len(),
{
    if bindings.len() == 0 {
        Seq::empty()
    } else {
        let less = bindings.drop_last();
        let last = bindings.len() - 1;
        let before = refused_places(less, accepted);
        let at = if accepted[last] {
            before
        } else {
            before.push(last)
        };
        assert forall|k: int| 0 <= k < at.len() implies 0 <= #[trigger] at[k] < bindings.len()
            && refused_keys(bindings, accepted)[k] == bindings[at[k]].key@ by {
            if k < before.len() {
                assert(at[k] == before[k]);
                assert(less[before[k]] == bindings[at[k]]);
            }
        }
        assert forall|i: int| 0 <= i < bindings.len() implies (at.contains(i)
            <==> !#[trigger] accepted[i]) by {
            if i < last {
                if before.contains(i) {
                    let k = choose|k: int| 0 <= k < before.len() && before[k] == i;
                    assert(at[k] == i);
                }
                if at.contains(i) {
                    let k = choose|k: int| 0 <= k < at.len() && at[k] == i;
                    assert(before[k] == i);
                }
            } else if accepted[i] {
                if at.contains(i) {
                    let k = choose|k: int| 0 <= k < at.len() && at[k] == i;
                    assert(before[k] == i);
                }
            } else {
                assert(at[before.len() as int] == i);
            }
        }
        at
    }
}

/// Bindings claim their keys for their actions, each in its place, and actions are
/// what they are called.
pub proof fn bindings_claim_their_keys(bindings: Seq<Binding>, id: String)
    ensures
        binding_claims(bindings).len() == bindings.len(),
        forall|i: int|
            0 <= i < bindings.len() ==> #[trigger] binding_claims(bindings)[i] == (
                bindings[i].key@,
                bindings[i].action@,
            ),
        Action::TogglePitch@ == ActionView::TogglePitch,
        Action::Stop@ == ActionView::Stop,
        Action::NextProfile@ == ActionView::NextProfile,
        (Action::Play { id })@ == (ActionView::Play { id: id@ }),
{
}

/// A shortcut whose key does not move is registered as it is, and any other as what
/// it becomes for the virtual key that the layout has on its scan code.
pub proof fn what_is_registered_is_what_is_pressed<F: Fn(u32) -> u16>(
    to_vk: F,
    shortcut: Seq<char>,
    target: Seq<char>,
)
    requires
        is_target(to_vk, shortcut, target),
    ensures
        !key_names().contains(key(shortcut)) ==> target == shortcut,
        forall|i: int|
            0 <= i < key_names().len() && #[trigger] key_names()[i] == key(shortcut)
                ==> exists|vk: u16| #[trigger]
                call_ensures(to_vk, (scan_codes()[i],), vk) && target == retargeted(shortcut, vk),
{
    place_of_is_first(key_names(), key(shortcut));
    assert forall|i: int|
        0 <= i < key_names().len() && #[trigger] key_names()[i] == key(
            shortcut,
        ) implies key_place(shortcut) == Some(i) by {
        names_are_distinct();
    }
}

} // verus!
