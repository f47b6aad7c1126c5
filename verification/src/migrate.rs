//! Reissuing the bindings that an older build handed out.

use crate::config::{
    profile_views, sound_views, Config, ConfigView, ProfileView, Sound, SoundView,
    CONFIG_VERSION, PITCH_HOTKEY, STOP_HOTKEY,
};
use crate::text::{joined, texts};
use vstd::prelude::*;

verus! {

/// The digit row, in the order in which its keys are handed out.
pub const DIGIT_ROW: [&'static str; 10] = ["1", "2", "3", "4", "5", "6", "7", "8", "9", "0"];

/// The punctuation keys, in the order in which they are handed out. Quote and
/// Semicolon are missing on purpose: they are the pitch and stop defaults, and
/// a sound bound over one of them would silently lose.
pub const PUNCTUATION: [&'static str; 8] = [
    "Minus",
    "Equal",
    "BracketLeft",
    "BracketRight",
    "Backslash",
    "Comma",
    "Period",
    "Slash",
];

/// The number of shortcuts in the bank.
pub const BANK_SIZE: usize = 18;

/// The shortcut at a place in the bank: first the digit row, then the
/// punctuation.
pub open spec fn bank_key(i: int) -> Seq<char> {
    if i < 10 {
        "Ctrl+Shift+Digit"@ + DIGIT_ROW@[i]@
    } else {
        "Ctrl+Shift+"@ + PUNCTUATION@[i - 10]@
    }
}

/// The bank of shortcuts, in order.
pub open spec fn bank() -> Seq<Seq<char>> {
    Seq::new(BANK_SIZE as nat, |i: int| bank_key(i))
}

/// The shortcut for the nth sound that is to get one; none once the bank is
/// used up.
pub open spec fn nth_key(n: nat) -> Seq<char> {
    if n < BANK_SIZE {
        bank()[n as int]
    } else {
        Seq::empty()
    }
}

/// How many of the sounds have a shortcut.
pub open spec fn bound_count(sounds: Seq<SoundView>) -> nat
    decreases sounds.len(),
{
    if sounds.len() == 0 {
        0
    } else {
        bound_count(sounds.drop_last()) + if sounds.last().hotkey.len() == 0 {
            0nat
        } else {
            1nat
        }
    }
}

/// How many sounds of the profiles have a shortcut.
pub open spec fn bound_total(profiles: Seq<ProfileView>) -> nat
    decreases profiles.len(),
{
    if profiles.len() == 0 {
        0
    } else {
        bound_total(profiles.drop_last()) + bound_count(profiles.last().sounds)
    }
}

/// The sounds with their shortcuts reissued from place `start` of the bank on.
/// One without a shortcut stays without.
pub open spec fn reissued_sounds(sounds: Seq<SoundView>, start: nat) -> Seq<SoundView> {
    Seq::new(
        sounds.len(),
        |j: int|
            if sounds[j].hotkey.len() == 0 {
                sounds[j]
            } else {
                SoundView {
                    hotkey: nth_key(start + bound_count(sounds.take(j))),
                    ..sounds[j]
                }
            },
    )
}

/// The profiles with their shortcuts reissued, from one bank for all of them.
pub open spec fn reissued_profiles(profiles: Seq<ProfileView>) -> Seq<ProfileView> {
    Seq::new(
        profiles.len(),
        |i: int|
            ProfileView {
                sounds: reissued_sounds(profiles[i].sounds, bound_total(profiles.take(i))),
                ..profiles[i]
            },
    )
}

/// The configuration as this build wants it: untouched if it is recent enough,
/// otherwise with every binding reissued.
pub open spec fn migrated(cfg: ConfigView) -> ConfigView {
    if cfg.version >= CONFIG_VERSION {
        cfg
    } else {
        ConfigView {
            version: CONFIG_VERSION,
            pitch_hotkey: PITCH_HOTKEY@,
            stop_hotkey: STOP_HOTKEY@,
            next_profile_hotkey: Seq::empty(),
            profiles: reissued_profiles(cfg.profiles),
            ..cfg
        }
    }
}

/// The shortcuts the board hands out, in order. Both banks work on a laptop
/// with no numpad and no Fn key, and nothing else claims them.
pub fn free_keys() -> (r: Vec<String>)
    ensures
        texts(r@) == bank(),
{
    let mut out: Vec<String> = Vec::new();
    for i in 0..10usize
        invariant
            out.len() == i,
            forall|k: int| 0 <= k < i ==> (#[trigger] out@[k])@ == bank_key(k),
    {
        out.push(joined("Ctrl+Shift+Digit", DIGIT_ROW[i]));
    }
    for i in 0..8usize
        invariant
            out.len() == 10 + i,
            forall|k: int| 0 <= k < 10 + i ==> (#[trigger] out@[k])@ == bank_key(k),
    {
        out.push(joined("Ctrl+Shift+", PUNCTUATION[i]));
    }
    assert(texts(out@) =~= bank());
    out
}

/// Reissuing depends on the starting place only up to the end of the bank.
proof fn reissue_start_is_capped(sounds: Seq<SoundView>, start: nat)
    requires
        start >= BANK_SIZE,
    ensures
        reissued_sounds(sounds, start) == reissued_sounds(sounds, BANK_SIZE as nat),
{
    assert(reissued_sounds(sounds, start) =~= reissued_sounds(sounds, BANK_SIZE as nat));
}

/// Reissues the shortcuts of one row of sounds from place `start` of the bank
/// on, and gives the place where the next row starts.
fn reissue_sounds(sounds: &mut Vec<Sound>, keys: &Vec<String>, start: usize) -> (next: usize)
    requires
        texts(keys@) == bank(),
        start <= BANK_SIZE,
    ensures
        sound_views(final(sounds)@) == reissued_sounds(sound_views(old(sounds)@), start as nat),
        next as int == if start + bound_count(sound_views(old(sounds)@)) < BANK_SIZE {
            start + bound_count(sound_views(old(sounds)@))
        } else {
            BANK_SIZE as int
        },
{
    let ghost before = sound_views(sounds@);
    let n: usize = sounds.len();
    let mut at: usize = start;
    for j in 0..n
        invariant
            n == sounds.len(),
            n == before.len(),
            texts(keys@) == bank(),
            at <= BANK_SIZE,
            at as int == if start + bound_count(before.take(j as int)) < BANK_SIZE {
                start + bound_count(before.take(j as int))
            } else {
                BANK_SIZE as int
            },
            forall|k: int|
                0 <= k < j ==> (#[trigger] sounds@[k])@ == reissued_sounds(
                    before,
                    start as nat,
                )[k],
            forall|k: int| j <= k < n ==> (#[trigger] sounds@[k])@ == before[k],
    {
        proof {
            assert(before.take(j + 1).drop_last() =~= before.take(j as int));
            assert(before.take(j + 1).last() == before[j as int]);
            assert(sounds@[j as int]@ == before[j as int]);
        }
        if !sounds[j].hotkey.as_str().is_empty() {
            if at < BANK_SIZE {
                assert(texts(keys@).len() == keys@.len());
                let key = keys[at].clone();
                assert(key@ == texts(keys@)[at as int]);
                sounds[j].hotkey = key;
                at = at + 1;
            } else {
                sounds[j].hotkey = String::new();
            }
        }
    }
    proof {
        assert(before.take(n as int) =~= before);
        assert(sound_views(sounds@) =~= reissued_sounds(before, start as nat));
    }
    at
}

/// Reissues every binding an older build handed out, and tells whether anything
/// changed, so that a fresh install does not rewrite its own configuration.
///
/// This throws away bindings the user may have chosen: the old bank needed a
/// numpad, so leaving them in place would leave dead keys.
pub fn migrate(cfg: &mut Config) -> (changed: bool)
    ensures
        final(cfg)@ == migrated(old(cfg)@),
        changed == (old(cfg)@.version < CONFIG_VERSION),
{
    if cfg.version >= CONFIG_VERSION {
        return false;
    }
    cfg.pitch_hotkey = PITCH_HOTKEY.to_owned();
    cfg.stop_hotkey = STOP_HOTKEY.to_owned();
    cfg.next_profile_hotkey = String::new();

    // One bank across the whole configuration: two profiles cannot both own a
    // key.
    let keys = free_keys();
    let ghost before = cfg@.profiles;
    let ghost rest = *cfg;
    let n: usize = cfg.profiles.len();
    let mut at: usize = 0;
    for i in 0..n
        invariant
            n == cfg.profiles.len(),
            n == before.len(),
            texts(keys@) == bank(),
            at <= BANK_SIZE,
            at as int == if bound_total(before.take(i as int)) < BANK_SIZE {
                bound_total(before.take(i as int)) as int
            } else {
                BANK_SIZE as int
            },
            *cfg == (Config { profiles: cfg.profiles, ..rest }),
            forall|k: int|
                0 <= k < i ==> (#[trigger] cfg.profiles@[k])@ == reissued_profiles(before)[k],
            forall|k: int| i <= k < n ==> (#[trigger] cfg.profiles@[k])@ == before[k],
    {
        proof {
            assert(before.take(i + 1).drop_last() =~= before.take(i as int));
            assert(before.take(i + 1).last() == before[i as int]);
            assert(cfg.profiles@[i as int]@ == before[i as int]);
            if bound_total(before.take(i as int)) >= BANK_SIZE {
                reissue_start_is_capped(
                    before[i as int].sounds,
                    bound_total(before.take(i as int)),
                );
            }
        }
        at = reissue_sounds(&mut cfg.profiles[i].sounds, &keys, at);
    }
    cfg.version = CONFIG_VERSION;
    assert(profile_views(cfg.profiles@) =~= reissued_profiles(before));
    true
}

/// What tells the shortcuts of the bank apart, and from the pitch and stop
/// defaults: their lengths, the first letter of the key, and the last character.
proof fn bank_marks()
    ensures
        forall|i: int|
            0 <= i < 10 ==> {
                &&& (#[trigger] bank_key(i)).len() == 17
                &&& bank_key(i)[11] == 'D'
                &&& bank_key(i)[16] == DIGIT_ROW@[i]@[0]
            },
        forall|i: int, j: int|
            0 <= i < j < 10 ==> (#[trigger] DIGIT_ROW@[i])@[0] != (#[trigger] DIGIT_ROW@[j])@[0],
        bank_key(10).len() == 16 && bank_key(10)[11] == 'M',
        bank_key(11).len() == 16 && bank_key(11)[11] == 'E',
        bank_key(12).len() == 22,
        bank_key(13).len() == 23,
        bank_key(14).len() == 20 && bank_key(14)[11] == 'B',
        bank_key(15).len() == 16 && bank_key(15)[11] == 'C',
        bank_key(16).len() == 17 && bank_key(16)[11] == 'P',
        bank_key(17).len() == 16 && bank_key(17)[11] == 'S',
        PITCH_HOTKEY@.len() == 16 && PITCH_HOTKEY@[11] == 'Q',
        STOP_HOTKEY@.len() == 20 && STOP_HOTKEY@[11] == 'S',
{
    reveal_strlit("Ctrl+Shift+Digit");
    reveal_strlit("Ctrl+Shift+");
    reveal_strlit("1");
    reveal_strlit("2");
    reveal_strlit("3");
    reveal_strlit("4");
    reveal_strlit("5");
    reveal_strlit("6");
    reveal_strlit("7");
    reveal_strlit("8");
    reveal_strlit("9");
    reveal_strlit("0");
    reveal_strlit("Minus");
    reveal_strlit("Equal");
    reveal_strlit("BracketLeft");
    reveal_strlit("BracketRight");
    reveal_strlit("Backslash");
    reveal_strlit("Comma");
    reveal_strlit("Period");
    reveal_strlit("Slash");
    reveal_strlit("Ctrl+Shift+Quote");
    reveal_strlit("Ctrl+Shift+Semicolon");
    assert forall|i: int| 0 <= i < 10 implies {
        &&& (#[trigger] bank_key(i)).len() == 17
        &&& bank_key(i)[11] == 'D'
        &&& bank_key(i)[16] == DIGIT_ROW@[i]@[0]
    } by {
        assert(i == 0 || i == 1 || i == 2 || i == 3 || i == 4 || i == 5 || i == 6 || i == 7 || i
            == 8 || i == 9);
        assert(DIGIT_ROW@[i]@.len() == 1);
    }
}

/// The bank holds no shortcut twice, and neither the pitch nor the stop default.
pub proof fn bank_is_distinct()
    ensures
        bank().no_duplicates(),
        !bank().contains(PITCH_HOTKEY@),
        !bank().contains(STOP_HOTKEY@),
        forall|i: int| 0 <= i < BANK_SIZE ==> (#[trigger] bank()[i]).len() > 0,
        PITCH_HOTKEY@ != STOP_HOTKEY@,
{
    bank_marks();
    assert forall|i: int, j: int| 0 <= i < j < 18 implies #[trigger] bank()[i]
        != #[trigger] bank()[j] by {
        assert(bank()[i] == bank_key(i));
        assert(bank()[j] == bank_key(j));
        if i < 10 && j < 10 {
            assert(bank_key(i)[16] == DIGIT_ROW@[i]@[0]);
            assert(bank_key(j)[16] == DIGIT_ROW@[j]@[0]);
        }
    }
    assert forall|i: int| 0 <= i < 18 implies #[trigger] bank()[i] != PITCH_HOTKEY@ && bank()[i]
        != STOP_HOTKEY@ && bank()[i].len() > 0 by {
        assert(bank()[i] == bank_key(i));
    }
}

/// A bound sound takes a place of its own in the count.
proof fn count_grows(sounds: Seq<SoundView>, j: int, l: int)
    requires
        0 <= j < l <= sounds.len(),
    ensures
        bound_count(sounds.take(j)) <= bound_count(sounds.take(l)),
        sounds[j].hotkey.len() > 0 ==> bound_count(sounds.take(j)) < bound_count(sounds.take(l)),
    decreases l - j,
{
    assert(sounds.take(l).drop_last() =~= sounds.take(l - 1));
    assert(sounds.take(l).last() == sounds[l - 1]);
    if j < l - 1 {
        count_grows(sounds, j, l - 1);
    }
}

/// The sounds of a profile are counted before those of any later one.
proof fn total_grows(profiles: Seq<ProfileView>, i: int, k: int)
    requires
        0 <= i < k <= profiles.len(),
    ensures
        bound_total(profiles.take(i)) + bound_count(profiles[i].sounds) <= bound_total(
            profiles.take(k),
        ),
    decreases k - i,
{
    assert(profiles.take(k).drop_last() =~= profiles.take(k - 1));
    assert(profiles.take(k).last() == profiles[k - 1]);
    if i < k - 1 {
        total_grows(profiles, i, k - 1);
    }
}

/// A second launch leaves the configuration alone: once migrated, it is recent
/// enough, and migrating it again changes nothing.
pub proof fn migration_runs_once(cfg: ConfigView)
    ensures
        migrated(cfg).version >= CONFIG_VERSION,
        migrated(migrated(cfg)) == migrated(cfg),
{
}

/// Migration touches nothing but the bindings and the version: profiles and
/// clips keep their places and everything else they hold, and a clip that had
/// no shortcut is not given one.
pub proof fn migration_keeps_the_board(cfg: ConfigView)
    ensures
        migrated(cfg).profiles.len() == cfg.profiles.len(),
        migrated(cfg).active == cfg.active,
        migrated(cfg).output_device == cfg.output_device,
        migrated(cfg).monitor_device == cfg.monitor_device,
        migrated(cfg).master_volume == cfg.master_volume,
        forall|i: int|
            0 <= i < cfg.profiles.len() ==> {
                let old_profile = cfg.profiles[i];
                let new_profile = #[trigger] migrated(cfg).profiles[i];
                &&& new_profile == ProfileView { sounds: new_profile.sounds, ..old_profile }
                &&& new_profile.sounds.len() == old_profile.sounds.len()
            },
        forall|i: int, j: int|
            0 <= i < cfg.profiles.len() && 0 <= j < cfg.profiles[i].sounds.len() ==> {
                let old_sound = cfg.profiles[i].sounds[j];
                let new_sound = #[trigger] migrated(cfg).profiles[i].sounds[j];
                &&& new_sound == SoundView { hotkey: new_sound.hotkey, ..old_sound }
                &&& old_sound.hotkey.len() == 0 ==> new_sound.hotkey.len() == 0
            },
{
}

/// After a migration no old binding is left: every clip has a shortcut of the
/// bank or none, and the app-wide keys are the defaults.
pub proof fn migration_drops_old_bindings(cfg: ConfigView, i: int, j: int)
    requires
        cfg.version < CONFIG_VERSION,
        0 <= i < cfg.profiles.len(),
        0 <= j < cfg.profiles[i].sounds.len(),
    ensures
        migrated(cfg).pitch_hotkey == PITCH_HOTKEY@,
        migrated(cfg).stop_hotkey == STOP_HOTKEY@,
        migrated(cfg).next_profile_hotkey.len() == 0,
        migrated(cfg).profiles[i].sounds[j].hotkey.len() == 0 || bank().contains(
            migrated(cfg).profiles[i].sounds[j].hotkey,
        ),
{
}

/// A migration hands no key out twice: two clips that have a shortcut
/// afterwards, of one profile or of two, have different ones, and neither is
/// the pitch or the stop key.
pub proof fn migration_hands_each_key_out_once(cfg: ConfigView, i: int, j: int, k: int, l: int)
    requires
        cfg.version < CONFIG_VERSION,
        0 <= i < cfg.profiles.len(),
        0 <= j < cfg.profiles[i].sounds.len(),
        0 <= k < cfg.profiles.len(),
        0 <= l < cfg.profiles[k].sounds.len(),
        (i, j) != (k, l),
        migrated(cfg).profiles[i].sounds[j].hotkey.len() > 0,
        migrated(cfg).profiles[k].sounds[l].hotkey.len() > 0,
    ensures
        migrated(cfg).profiles[i].sounds[j].hotkey != migrated(cfg).profiles[k].sounds[l].hotkey,
        migrated(cfg).profiles[i].sounds[j].hotkey != migrated(cfg).pitch_hotkey,
        migrated(cfg).profiles[i].sounds[j].hotkey != migrated(cfg).stop_hotkey,
{
    bank_is_distinct();
    let p = cfg.profiles;
    let a = bound_total(p.take(i)) + bound_count(p[i].sounds.take(j));
    let b = bound_total(p.take(k)) + bound_count(p[k].sounds.take(l));
    assert(p[i].sounds.take(p[i].sounds.len() as int) =~= p[i].sounds);
    assert(p[k].sounds.take(p[k].sounds.len() as int) =~= p[k].sounds);
    count_grows(p[i].sounds, j, p[i].sounds.len() as int);
    count_grows(p[k].sounds, l, p[k].sounds.len() as int);
    if i < k {
        total_grows(p, i, k);
    } else if k < i {
        total_grows(p, k, i);
    } else if j < l {
        count_grows(p[i].sounds, j, l);
    } else {
        count_grows(p[i].sounds, l, j);
    }
    assert(a != b);
    assert(migrated(cfg).profiles[i].sounds[j].hotkey == bank()[a as int]);
    assert(migrated(cfg).profiles[k].sounds[l].hotkey == bank()[b as int]);
}

/// Counting the sounds with a shortcut is counting what is left without the
/// others.
proof fn counts_the_bound(sounds: Seq<SoundView>)
    ensures
        bound_count(sounds) == sounds.filter(|s: SoundView| s.hotkey.len() > 0).len(),
    decreases sounds.len(),
{
    reveal(Seq::filter);
    if sounds.len() > 0 {
        counts_the_bound(sounds.drop_last());
    }
}

/// Counting profile by profile is counting all of their sounds.
proof fn counts_the_bound_of_all(profiles: Seq<ProfileView>)
    ensures
        bound_total(profiles) == profiles.map_values(|p: ProfileView| p.sounds).flatten().filter(
            |s: SoundView| s.hotkey.len() > 0,
        ).len(),
    decreases profiles.len(),
{
    let rows = profiles.map_values(|p: ProfileView| p.sounds);
    if profiles.len() > 0 {
        let keep = |s: SoundView| s.hotkey.len() > 0;
        let less = profiles.drop_last();
        let less_rows = less.map_values(|p: ProfileView| p.sounds);
        counts_the_bound_of_all(less);
        counts_the_bound(profiles.last().sounds);
        assert(rows =~= less_rows.push(profiles.last().sounds));
        less_rows.lemma_flatten_push(profiles.last().sounds);
        Seq::filter_distributes_over_add(less_rows.flatten(), profiles.last().sounds, keep);
    } else {
        reveal(Seq::filter);
        assert(rows =~= Seq::empty());
    }
}

/// Keys are handed out without gaps: a clip that had a shortcut gets the key whose
/// place in the bank is the number of clips before it, through all profiles in
/// order, that had one; and none once there are as many of these as keys.
pub proof fn keys_are_handed_out_without_gaps(cfg: ConfigView, i: int, j: int)
    requires
        cfg.version < CONFIG_VERSION,
        0 <= i < cfg.profiles.len(),
        0 <= j < cfg.profiles[i].sounds.len(),
        cfg.profiles[i].sounds[j].hotkey.len() > 0,
    ensures
        ({
            let earlier = cfg.profiles.take(i).map_values(|p: ProfileView| p.sounds).flatten()
                + cfg.profiles[i].sounds.take(j);
            let k = earlier.filter(|s: SoundView| s.hotkey.len() > 0).len();
            migrated(cfg).profiles[i].sounds[j].hotkey == if k < bank().len() {
                bank()[k as int]
            } else {
                Seq::empty()
            }
        }),
{
    let keep = |s: SoundView| s.hotkey.len() > 0;
    let earlier = cfg.profiles.take(i).map_values(|p: ProfileView| p.sounds).flatten();
    counts_the_bound_of_all(cfg.profiles.take(i));
    counts_the_bound(cfg.profiles[i].sounds.take(j));
    Seq::filter_distributes_over_add(earlier, cfg.profiles[i].sounds.take(j), keep);
}

/// As long as the clips that had a shortcut are no more than the keys, none of
/// them loses it, and the first of them has the first key.
pub proof fn nobody_loses_a_shortcut_while_keys_last(cfg: ConfigView, i: int, j: int)
    requires
        cfg.version < CONFIG_VERSION,
        0 <= i < cfg.profiles.len(),
        0 <= j < cfg.profiles[i].sounds.len(),
        cfg.profiles[i].sounds[j].hotkey.len() > 0,
        cfg.profiles.map_values(|p: ProfileView| p.sounds).flatten().filter(
            |s: SoundView| s.hotkey.len() > 0,
        ).len() <= bank().len(),
    ensures
        migrated(cfg).profiles[i].sounds[j].hotkey.len() > 0,
        bank().contains(migrated(cfg).profiles[i].sounds[j].hotkey),
        (forall|k: int, l: int|
            0 <= k < cfg.profiles.len() && 0 <= l < cfg.profiles[k].sounds.len() && (k < i || (k
                == i && l < j)) ==> (#[trigger] cfg.profiles[k].sounds[l]).hotkey.len() == 0)
            ==> migrated(cfg).profiles[i].sounds[j].hotkey == "Ctrl+Shift+Digit1"@,
{
    let p = cfg.profiles;
    let sounds = p[i].sounds;
    let place = bound_total(p.take(i)) + bound_count(sounds.take(j));
    counts_the_bound_of_all(p);
    assert(p.take(p.len() as int) =~= p);
    assert(sounds.take(sounds.len() as int) =~= sounds);
    count_grows(sounds, j, sounds.len() as int);
    total_grows(p, i, p.len() as int);
    bank_is_distinct();
    assert(migrated(cfg).profiles[i].sounds[j].hotkey == bank()[place as int]);
    if forall|k: int, l: int|
        0 <= k < p.len() && 0 <= l < p[k].sounds.len() && (k < i || (k == i && l < j))
            ==> (#[trigger] p[k].sounds[l]).hotkey.len() == 0 {
        assert forall|l: int| 0 <= l < j implies (#[trigger] sounds[l]).hotkey.len() == 0 by {
            assert(p[i].sounds[l].hotkey.len() == 0);
        }
        nothing_bound_counts_for_nothing(sounds, j);
        assert forall|k: int, l: int| 0 <= k < i && 0 <= l < p[k].sounds.len() implies (
        #[trigger] p[k].sounds[l]).hotkey.len() == 0 by {}
        nothing_bound_counts_for_nothing_at_all(p, i);
        the_bank_is_the_documented_one();
    }
}

proof fn nothing_bound_counts_for_nothing(sounds: Seq<SoundView>, j: int)
    requires
        0 <= j <= sounds.len(),
        forall|l: int| 0 <= l < j ==> (#[trigger] sounds[l]).hotkey.len() == 0,
    ensures
        bound_count(sounds.take(j)) == 0,
    decreases j,
{
    if j > 0 {
        nothing_bound_counts_for_nothing(sounds, j - 1);
        assert(sounds.take(j).drop_last() =~= sounds.take(j - 1));
        assert(sounds.take(j).last() == sounds[j - 1]);
    }
}

proof fn nothing_bound_counts_for_nothing_at_all(p: Seq<ProfileView>, i: int)
    requires
        0 <= i <= p.len(),
        forall|k: int, l: int|
            0 <= k < i && 0 <= l < p[k].sounds.len() ==> (#[trigger] p[k].sounds[l]).hotkey.len()
                == 0,
    ensures
        bound_total(p.take(i)) == 0,
    decreases i,
{
    if i > 0 {
        let last = p[i - 1].sounds;
        nothing_bound_counts_for_nothing_at_all(p, i - 1);
        assert(p.take(i).drop_last() =~= p.take(i - 1));
        assert(p.take(i).last() == p[i - 1]);
        assert forall|l: int| 0 <= l < last.len() implies (#[trigger] last[l]).hotkey.len()
            == 0 by {
            assert(p[i - 1].sounds[l].hotkey.len() == 0);
        }
        nothing_bound_counts_for_nothing(last, last.len() as int);
        assert(last.take(last.len() as int) =~= last);
    }
}

/// The bank is the documented one: the digit row from one to zero, then the
/// punctuation that is free.
pub proof fn the_bank_is_the_documented_one()
    ensures
        bank().len() == 18,
        bank()[0] == "Ctrl+Shift+Digit1"@,
        bank()[1] == "Ctrl+Shift+Digit2"@,
        bank()[2] == "Ctrl+Shift+Digit3"@,
        bank()[3] == "Ctrl+Shift+Digit4"@,
        bank()[4] == "Ctrl+Shift+Digit5"@,
        bank()[5] == "Ctrl+Shift+Digit6"@,
        bank()[6] == "Ctrl+Shift+Digit7"@,
        bank()[7] == "Ctrl+Shift+Digit8"@,
        bank()[8] == "Ctrl+Shift+Digit9"@,
        bank()[9] == "Ctrl+Shift+Digit0"@,
        bank()[10] == "Ctrl+Shift+Minus"@,
        bank()[11] == "Ctrl+Shift+Equal"@,
        bank()[12] == "Ctrl+Shift+BracketLeft"@,
        bank()[13] == "Ctrl+Shift+BracketRight"@,
        bank()[14] == "Ctrl+Shift+Backslash"@,
        bank()[15] == "Ctrl+Shift+Comma"@,
        bank()[16] == "Ctrl+Shift+Period"@,
        bank()[17] == "Ctrl+Shift+Slash"@,
{
    reveal_strlit("Ctrl+Shift+Digit");
    reveal_strlit("Ctrl+Shift+");
    assert(bank()[0] =~= "Ctrl+Shift+Digit1"@) by {
        reveal_strlit("1");
        reveal_strlit("Ctrl+Shift+Digit1");
    }
    assert(bank()[1] =~= "Ctrl+Shift+Digit2"@) by {
        reveal_strlit("2");
        reveal_strlit("Ctrl+Shift+Digit2");
    }
    assert(bank()[2] =~= "Ctrl+Shift+Digit3"@) by {
        reveal_strlit("3");
        reveal_strlit("Ctrl+Shift+Digit3");
    }
    assert(bank()[3] =~= "Ctrl+Shift+Digit4"@) by {
        reveal_strlit("4");
        reveal_strlit("Ctrl+Shift+Digit4");
    }
    assert(bank()[4] =~= "Ctrl+Shift+Digit5"@) by {
        reveal_strlit("5");
        reveal_strlit("Ctrl+Shift+Digit5");
    }
    assert(bank()[5] =~= "Ctrl+Shift+Digit6"@) by {
        reveal_strlit("6");
        reveal_strlit("Ctrl+Shift+Digit6");
    }
    assert(bank()[6] =~= "Ctrl+Shift+Digit7"@) by {
        reveal_strlit("7");
        reveal_strlit("Ctrl+Shift+Digit7");
    }
    assert(bank()[7] =~= "Ctrl+Shift+Digit8"@) by {
        reveal_strlit("8");
        reveal_strlit("Ctrl+Shift+Digit8");
    }
    assert(bank()[8] =~= "Ctrl+Shift+Digit9"@) by {
        reveal_strlit("9");
        reveal_strlit("Ctrl+Shift+Digit9");
    }
    assert(bank()[9] =~= "Ctrl+Shift+Digit0"@) by {
        reveal_strlit("0");
        reveal_strlit("Ctrl+Shift+Digit0");
    }
    assert(bank()[10] =~= "Ctrl+Shift+Minus"@) by {
        reveal_strlit("Minus");
        reveal_strlit("Ctrl+Shift+Minus");
    }
    assert(bank()[11] =~= "Ctrl+Shift+Equal"@) by {
        reveal_strlit("Equal");
        reveal_strlit("Ctrl+Shift+Equal");
    }
    assert(bank()[12] =~= "Ctrl+Shift+BracketLeft"@) by {
        reveal_strlit("BracketLeft");
        reveal_strlit("Ctrl+Shift+BracketLeft");
    }
    assert(bank()[13] =~= "Ctrl+Shift+BracketRight"@) by {
        reveal_strlit("BracketRight");
        reveal_strlit("Ctrl+Shift+BracketRight");
    }
    assert(bank()[14] =~= "Ctrl+Shift+Backslash"@) by {
        reveal_strlit("Backslash");
        reveal_strlit("Ctrl+Shift+Backslash");
    }
    assert(bank()[15] =~= "Ctrl+Shift+Comma"@) by {
        reveal_strlit("Comma");
        reveal_strlit("Ctrl+Shift+Comma");
    }
    assert(bank()[16] =~= "Ctrl+Shift+Period"@) by {
        reveal_strlit("Period");
        reveal_strlit("Ctrl+Shift+Period");
    }
    assert(bank()[17] =~= "Ctrl+Shift+Slash"@) by {
        reveal_strlit("Slash");
        reveal_strlit("Ctrl+Shift+Slash");
    }
}

/// A migration happens exactly to a configuration that is older than this build's,
/// which is then of this build's version; any other is left alone.
pub proof fn only_an_older_configuration_is_migrated(cfg: ConfigView)
    ensures
        cfg.version >= 2 ==> migrated(cfg) == cfg,
        cfg.version < 2 ==> migrated(cfg).version == 2,
{
}

} // verus!
