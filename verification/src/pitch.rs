//! The pitch walk, and what a press of a clip's key plays.

use crate::config::{
    the_clip_found_is_the_one_asked_for, Config, ConfigView, Pitch, Sound, SoundView,
};
use crate::single::{Single, ONE, ZERO};
use vstd::prelude::*;

verus! {

/// What the tray says while pitch mod is engaged.
pub const TOOLTIP_ON: &'static str = "Thunderboard - pitch mod ON";

/// What the tray says otherwise.
pub const TOOLTIP_OFF: &'static str = "Thunderboard";

/// Whether pitch mod is engaged, and how far the walk has come.
#[derive(Debug)]
pub struct PitchState {
    pub on: bool,
    /// Which clip the walk currently belongs to. A different clip restarts it.
    pub last: Option<String>,
    pub n: u32,
}

/// What a [`PitchState`] holds.
#[verifier::ext_equal]
pub struct PitchStateView {
    pub on: bool,
    pub last: Option<Seq<char>>,
    pub n: nat,
}

impl View for PitchState {
    type V = PitchStateView;

    open spec fn view(&self) -> PitchStateView {
        PitchStateView {
            on: self.on,
            last: match self.last {
                Some(id) => Some(id@),
                None => None,
            },
            n: self.n as nat,
        }
    }
}

impl Default for PitchState {
    fn default() -> (r: PitchState)
        ensures
            r@ == (PitchStateView { on: false, last: None, n: 0 }),
    {
        PitchState { on: false, last: None, n: 0 }
    }
}

/// The rates the player can do.
#[derive(Clone, Copy, Debug, PartialEq, Eq, Structural)]
pub struct SpeedLimits {
    pub slowest: Single,
    pub fastest: Single,
}

impl SpeedLimits {
    /// Both limits are numbers, and in order.
    pub open spec fn valid(self) -> bool {
        self.slowest.at_most(self.fastest)
    }
}

/// The rate of a press, as arithmetic that is yet to be done.
#[derive(Clone, Copy, Debug, PartialEq, Eq, Structural)]
pub enum RateFormula {
    /// `1 + step * n`.
    Step { step: Single, n: u32 },
    /// `low + r * |max - min|`, for an `r` between zero and one that is drawn
    /// anew for every press. If both bounds are numbers, `min` is the lower one,
    /// whichever way round the clip has them.
    Random { low: Single, min: Single, max: Single },
}

/// What is played for a press.
#[derive(Debug)]
pub struct Play {
    /// The audio file.
    pub path: String,
    /// The playback rate.
    pub speed: Single,
    /// The clip's own volume; what sounds is this times `master_volume`.
    pub volume: Single,
    pub master_volume: Single,
    /// Seconds to skip at the start of the clip.
    pub offset: Single,
    /// Whether the clip stays off the bus that others hear.
    pub monitor_only: bool,
}

/// The walk after a press of the clip `id`.
pub open spec fn pressed(st: PitchStateView, id: Seq<char>) -> PitchStateView {
    if !st.on {
        PitchStateView { last: None, ..st }
    } else if st.last == Some(id) {
        PitchStateView { n: st.n + 1, ..st }
    } else {
        PitchStateView { last: Some(id), n: 0, ..st }
    }
}

/// The walk after pitch mod was switched on or off.
pub open spec fn switched(on: bool) -> PitchStateView {
    PitchStateView { on, last: None, n: 0 }
}

/// The arithmetic behind the rate of the nth repeat.
pub open spec fn formula(pitch: Pitch, n: nat) -> RateFormula {
    match pitch {
        Pitch::Step { step, min, max } => RateFormula::Step { step, n: n as u32 },
        Pitch::Random { min, max } => if min.is_nan_spec() || max.is_nan_spec() {
            RateFormula::Random { low: min.min_spec(max), min, max }
        } else {
            RateFormula::Random {
                low: min.min_spec(max),
                min: min.min_spec(max),
                max: max.max_spec(min),
            }
        },
    }
}

/// The rate of a press while pitch mod is on, if `raw` is what the arithmetic
/// gave; flat while it is off.
pub open spec fn press_speed(
    st: PitchStateView,
    sound: SoundView,
    raw: Single,
    limits: SpeedLimits,
) -> Single {
    if st.on {
        bounded(sound.pitch, raw, limits)
    } else {
        Single { bits: ONE }
    }
}

/// Whether a walk has a range to stay in: at least one of a step's bounds is a
/// number.
pub open spec fn has_range(pitch: Pitch) -> bool {
    match pitch {
        Pitch::Step { step, min, max } => !(min.is_nan_spec() && max.is_nan_spec()),
        Pitch::Random { min, max } => true,
    }
}

/// The rate `raw`, kept to the range of a stepped walk, whichever way round its
/// bounds are, and in any case to what the player can do.
pub open spec fn bounded(pitch: Pitch, raw: Single, limits: SpeedLimits) -> Single {
    let kept = match pitch {
        Pitch::Step { step, min, max } => raw.clamp_spec(min.min_spec(max), max.max_spec(min)),
        Pitch::Random { min, max } => raw,
    };
    kept.clamp_spec(limits.slowest, limits.fastest)
}

/// Whether a press of the clip can be played out: the walk's counter has room
/// for it, and the clip's pitch has a range.
pub open spec fn playable(st: PitchStateView, sound: SoundView) -> bool {
    st.on ==> {
        &&& st.last == Some(sound.id) ==> st.n < u32::MAX
        &&& has_range(sound.pitch)
    }
}

/// What the tray says.
pub open spec fn tooltip(on: bool) -> Seq<char> {
    if on {
        TOOLTIP_ON@
    } else {
        TOOLTIP_OFF@
    }
}

/// The bounds of a stepped walk are in order, whichever way round they are
/// given.
proof fn bounds_are_in_order(min: Single, max: Single)
    requires
        !(min.is_nan_spec() && max.is_nan_spec()),
    ensures
        min.min_spec(max).at_most(max.max_spec(min)),
{
}

/// Tells whether a press of the clip can be played out.
pub fn can_press(st: &PitchState, sound: &Sound) -> (r: bool)
    ensures
        r == playable(st@, sound@),
{
    if !st.on {
        return true;
    }
    let again = match &st.last {
        Some(id) => *id == sound.id,
        None => false,
    };
    let ranged = match sound.pitch {
        Pitch::Step { step: _, min, max } => !(min.is_nan() && max.is_nan()),
        Pitch::Random { min: _, max: _ } => true,
    };
    (!again || st.n < u32::MAX) && ranged
}

/// Keeps a computed rate in bounds.
pub fn bound_speed(pitch: Pitch, raw: Single, limits: SpeedLimits) -> (r: Single)
    requires
        has_range(pitch),
        limits.valid(),
    ensures
        r == bounded(pitch, raw, limits),
{
    let kept = match pitch {
        Pitch::Step { step: _, min, max } => {
            proof {
                bounds_are_in_order(min, max);
            }
            raw.clamp(min.min(max), max.max(min))
        },
        Pitch::Random { min: _, max: _ } => raw,
    };
    kept.clamp(limits.slowest, limits.fastest)
}

/// Advances the walk and returns the rate for this press. `eval` does the
/// arithmetic.
///
/// The walk survives repeated presses of the same clip and is reset by a
/// different clip or by disengaging pitch mod - nothing else.
pub fn next_speed(
    st: &mut PitchState,
    sound: &Sound,
    limits: SpeedLimits,
    eval: impl Fn(RateFormula) -> Single,
) -> (r: Single)
    requires
        limits.valid(),
        playable(old(st)@, sound@),
        old(st)@.on ==> call_requires(
            eval,
            (formula(sound@.pitch, pressed(old(st)@, sound@.id).n),),
        ),
    ensures
        final(st)@ == pressed(old(st)@, sound@.id),
        !old(st)@.on ==> r.bits == ONE,
        old(st)@.on ==> exists|raw: Single| #[trigger]
            call_ensures(eval, (formula(sound@.pitch, final(st)@.n),), raw) && r == bounded(
                sound@.pitch,
                raw,
                limits,
            ),
{
    if !st.on {
        st.last = None;
        return Single { bits: ONE };
    }
    let again = match &st.last {
        Some(id) => *id == sound.id,
        None => false,
    };
    if again {
        st.n = st.n + 1;
    } else {
        st.last = Some(sound.id.clone());
        st.n = 0;
    }
    let rate = match sound.pitch {
        // The first press of a run is untouched; the drop starts on the repeat.
        Pitch::Step { step, min: _, max: _ } => RateFormula::Step { step, n: st.n },
        Pitch::Random { min, max } => if min.is_nan() || max.is_nan() {
            RateFormula::Random { low: min.min(max), min, max }
        } else {
            RateFormula::Random { low: min.min(max), min: min.min(max), max: max.max(min) }
        },
    };
    let raw = eval(rate);
    bound_speed(sound.pitch, raw, limits)
}

/// Engages or disengages pitch mod, and gives what the tray is to say. Either
/// way starts a fresh walk.
pub fn set_pitch_mod(st: &mut PitchState, on: bool) -> (tip: &'static str)
    ensures
        final(st)@ == switched(on),
        tip@ == tooltip(on),
{
    st.on = on;
    st.last = None;
    st.n = 0;
    if on {
        TOOLTIP_ON
    } else {
        TOOLTIP_OFF
    }
}

/// Engages pitch mod if it is off and disengages it if it is on, and gives what
/// the tray is to say.
pub fn toggle_pitch_mod(st: &mut PitchState) -> (tip: &'static str)
    ensures
        final(st)@ == switched(!old(st)@.on),
        tip@ == tooltip(!old(st)@.on),
{
    let on = !st.on;
    set_pitch_mod(st, on)
}

/// Mixes the nanoseconds of the clock into a number of 65535ths: jitter, not a
/// random generator. Only the low bits move between two presses, so they are
/// mixed upward.
pub fn rand01(nanos: u32) -> (r: u16)
    ensures
        r as int == (nanos * 2_654_435_761) % 0x1_0000_0000 / 0x100 % 0x1_0000,
{
    let mixed: u32 = nanos.wrapping_mul(2_654_435_761);
    (mixed / 0x100 % 0x1_0000) as u16
}

/// What a press of the clip `id` plays, if the profile in use has it. `eval`
/// does the arithmetic of the rate.
///
/// An audition stays on the monitor bus, is not pitched and leaves the walk
/// alone.
pub fn play(
    cfg: &Config,
    st: &mut PitchState,
    id: &str,
    monitor_only: bool,
    limits: SpeedLimits,
    eval: impl Fn(RateFormula) -> Single,
) -> (r: Option<Play>)
    requires
        limits.valid(),
        !monitor_only ==> (cfg@.sound_spec(id@) matches Some(sound) ==> {
            &&& playable(old(st)@, sound)
            &&& old(st)@.on ==> call_requires(
                eval,
                (formula(sound.pitch, pressed(old(st)@, sound.id).n),),
            )
        }),
    ensures
        match cfg@.sound_spec(id@) {
            Some(sound) => {
                &&& r matches Some(p)
                &&& p.path@ == sound.file
                &&& p.volume == sound.volume
                &&& p.master_volume == cfg@.master_volume
                &&& p.offset == sound.offset.max_spec(Single { bits: ZERO })
                &&& p.monitor_only == monitor_only
                &&& monitor_only || !old(st)@.on ==> p.speed.bits == ONE
                &&& !monitor_only && old(st)@.on ==> exists|raw: Single| #[trigger]
                    call_ensures(eval, (formula(sound.pitch, final(st)@.n),), raw) && p.speed
                        == press_speed(old(st)@, sound, raw, limits)
            },
            None => r is None,
        },
        final(st)@ == after_press(
            cfg@,
            old(st)@,
            (PressView { id: id@, audition: monitor_only }),
        ),
{
    match cfg.sound(id) {
        Some(sound) => {
            let speed = if monitor_only {
                Single { bits: ONE }
            } else {
                next_speed(st, sound, limits, eval)
            };
            Some(
                Play {
                    path: sound.file.clone(),
                    speed,
                    volume: sound.volume,
                    master_volume: cfg.master_volume,
                    offset: sound.offset.max(Single { bits: ZERO }),
                    monitor_only,
                },
            )
        },
        None => None,
    }
}

/// The walk after `k` presses of the clip `id`.
pub open spec fn presses(st: PitchStateView, id: Seq<char>, k: nat) -> PitchStateView
    decreases k,
{
    if k == 0 {
        st
    } else {
        pressed(presses(st, id, (k - 1) as nat), id)
    }
}

/// While pitch mod is on, the first press of a run is at step zero, and each
/// further press of the same clip is one step on.
pub proof fn repeats_walk_one_step_each(st: PitchStateView, id: Seq<char>, k: nat)
    requires
        st.on,
        st.last != Some(id),
    ensures
        presses(st, id, k + 1) == (PitchStateView { on: true, last: Some(id), n: k }),
    decreases k,
{
    reveal_with_fuel(presses, 2);
    if k > 0 {
        repeats_walk_one_step_each(st, id, (k - 1) as nat);
    }
}

/// A different clip restarts the walk, and coming back restarts it again rather
/// than resuming.
pub proof fn another_clip_restarts_the_walk(st: PitchStateView, a: Seq<char>, b: Seq<char>, k: nat)
    requires
        st.on,
        a != b,
        k > 0,
    ensures
        pressed(presses(st, a, k), b).n == 0,
        pressed(pressed(presses(st, a, k), b), a).n == 0,
{
    presses_belong_to_the_clip(st, a, k);
}

proof fn presses_belong_to_the_clip(st: PitchStateView, id: Seq<char>, k: nat)
    requires
        st.on,
    ensures
        presses(st, id, k).on,
        k > 0 ==> presses(st, id, k).last == Some(id),
    decreases k,
{
    if k > 0 {
        presses_belong_to_the_clip(st, id, (k - 1) as nat);
    }
}

/// Switching pitch mod, either way, starts a fresh walk: no clip owns it, and
/// the next press while it is on is at step zero.
pub proof fn switching_starts_a_fresh_walk(id: Seq<char>)
    ensures
        switched(true).last is None,
        switched(false).last is None,
        pressed(switched(true), id) == (PitchStateView { on: true, last: Some(id), n: 0 }),
        pressed(PitchStateView { on: true, ..pressed(switched(false), id) }, id).n == 0,
{
}

/// While pitch mod is off no walk is accumulated: however often clips are
/// pressed, the walk belongs to no clip, and a press after it is on is at step
/// zero.
pub proof fn nothing_accumulates_while_off(
    st: PitchStateView,
    id: Seq<char>,
    k: nat,
    later: Seq<char>,
)
    requires
        !st.on,
        k > 0,
    ensures
        !presses(st, id, k).on,
        presses(st, id, k).last is None,
        presses(st, id, k).n == st.n,
        pressed(PitchStateView { on: true, ..presses(st, id, k) }, later).n == 0,
    decreases k,
{
    if k > 1 {
        nothing_accumulates_while_off(st, id, (k - 1) as nat, later);
    } else {
        reveal_with_fuel(presses, 2);
    }
}

/// A random walk has no memory: its rate comes of the clip's range alone,
/// however often the clip was pressed.
pub proof fn random_has_no_memory(min: Single, max: Single, n: nat, m: nat)
    ensures
        formula(Pitch::Random { min, max }, n) == formula(Pitch::Random { min, max }, m),
{
}

/// No configuration can produce a rate the player cannot do: whatever number
/// the arithmetic gives, the rate is within the limits.
pub proof fn absurd_rates_are_clamped(pitch: Pitch, raw: Single, limits: SpeedLimits)
    requires
        has_range(pitch),
        limits.valid(),
        !raw.is_nan_spec(),
    ensures
        limits.slowest.at_most(bounded(pitch, raw, limits)),
        bounded(pitch, raw, limits).at_most(limits.fastest),
{
    if let Pitch::Step { step, min, max } = pitch {
        bounds_are_in_order(min, max);
    }
}

/// The floor and the ceiling of a stepped walk hold no matter how long the run
/// gets, as far as the player can do them: no rate is below the lower bound,
/// unless the player cannot go up to it, nor above the upper one, unless the
/// player cannot go down to it.
pub proof fn step_bounds_hold(
    step: Single,
    min: Single,
    max: Single,
    raw: Single,
    limits: SpeedLimits,
)
    requires
        has_range(Pitch::Step { step, min, max }),
        limits.valid(),
        !raw.is_nan_spec(),
    ensures
        min.min_spec(max).at_most(limits.fastest) ==> min.min_spec(max).at_most(
            bounded(Pitch::Step { step, min, max }, raw, limits),
        ),
        limits.slowest.at_most(max.max_spec(min)) ==> bounded(
            Pitch::Step { step, min, max },
            raw,
            limits,
        ).at_most(max.max_spec(min)),
{
    bounds_are_in_order(min, max);
}

/// The two bounds of a stepped walk may be given either way round.
pub proof fn step_bounds_may_be_swapped(
    step: Single,
    min: Single,
    max: Single,
    raw: Single,
    limits: SpeedLimits,
)
    requires
        !min.is_nan_spec(),
        !max.is_nan_spec(),
    ensures
        bounded(Pitch::Step { step, min, max }, raw, limits) == bounded(
            Pitch::Step { step, min: max, max: min },
            raw,
            limits,
        ),
{
}

/// The two bounds of a random range may be given either way round: the
/// arithmetic is the same, and so is what becomes of its result.
pub proof fn random_bounds_may_be_swapped(
    min: Single,
    max: Single,
    n: nat,
    raw: Single,
    limits: SpeedLimits,
)
    requires
        !min.is_nan_spec(),
        !max.is_nan_spec(),
    ensures
        formula(Pitch::Random { min, max }, n) == formula(Pitch::Random { min: max, max: min }, n),
        bounded(Pitch::Random { min, max }, raw, limits) == bounded(
            Pitch::Random { min: max, max: min },
            raw,
            limits,
        ),
{
}

/// Keeping rates in bounds keeps their order: of two rates, the lower one does
/// not come out above the other.
pub proof fn bounds_keep_the_order(pitch: Pitch, a: Single, b: Single, limits: SpeedLimits)
    requires
        has_range(pitch),
        limits.valid(),
        a.at_most(b),
    ensures
        bounded(pitch, a, limits).at_most(bounded(pitch, b, limits)),
{
    if let Pitch::Step { step, min, max } = pitch {
        bounds_are_in_order(min, max);
    }
}

/// Whether the arithmetic of a stepped walk keeps to its direction: a step that
/// is not above zero takes the rate no higher with more repeats, and one that is
/// not below zero takes it no lower.
pub open spec fn keeps_direction(arith: spec_fn(RateFormula) -> Single) -> bool {
    forall|step: Single, n: u32, m: u32|
        #![trigger arith(RateFormula::Step { step, n }), arith(RateFormula::Step { step, n: m })]
        step.is_finite_spec() && n <= m ==> {
            let early = arith(RateFormula::Step { step, n });
            let late = arith(RateFormula::Step { step, n: m });
            &&& step.at_most(Single { bits: ZERO }) ==> late.at_most(early)
            &&& (Single { bits: ZERO }).at_most(step) ==> early.at_most(late)
        }
}

/// The rate of the kth repeat of a clip, as [`next_speed`] gives it, if `arith`
/// is the arithmetic. The press that starts the run is repeat zero.
pub open spec fn repeat_speed(
    st: PitchStateView,
    sound: SoundView,
    k: nat,
    limits: SpeedLimits,
    arith: spec_fn(RateFormula) -> Single,
) -> Single {
    press_speed(
        presses(st, sound.id, k),
        sound,
        arith(formula(sound.pitch, presses(st, sound.id, k + 1).n)),
        limits,
    )
}

/// The rate of the kth repeat in a stepped run is what the arithmetic gives for
/// `k` steps, kept to the bounds of the clip and then to what the player can do.
pub proof fn a_step_run_is_clamped_arithmetic(
    st: PitchStateView,
    sound: SoundView,
    k: nat,
    limits: SpeedLimits,
    arith: spec_fn(RateFormula) -> Single,
)
    requires
        st.on,
        st.last != Some(sound.id),
        k <= u32::MAX,
        sound.pitch is Step,
    ensures
        sound.pitch matches Pitch::Step { step, min, max } && repeat_speed(
            st,
            sound,
            k,
            limits,
            arith,
        ) == arith(RateFormula::Step { step, n: k as u32 }).clamp_spec(
            min.min_spec(max),
            max.max_spec(min),
        ).clamp_spec(limits.slowest, limits.fastest),
{
    repeats_walk_one_step_each(st, sound.id, k);
    if k > 0 {
        repeats_walk_one_step_each(st, sound.id, (k - 1) as nat);
    }
}

/// Over a stepped run the rates never rise if the step is not above zero, and
/// never fall if it is not below zero, however the bounds cut in.
pub proof fn step_runs_keep_their_direction(
    st: PitchStateView,
    sound: SoundView,
    k: nat,
    l: nat,
    limits: SpeedLimits,
    arith: spec_fn(RateFormula) -> Single,
)
    requires
        st.on,
        st.last != Some(sound.id),
        k <= l <= u32::MAX,
        sound.pitch matches Pitch::Step { step, min, max } && step.is_finite_spec(),
        has_range(sound.pitch),
        limits.valid(),
        keeps_direction(arith),
    ensures
        sound.pitch matches Pitch::Step { step, min, max } && {
            let early = repeat_speed(st, sound, k, limits, arith);
            let late = repeat_speed(st, sound, l, limits, arith);
            &&& step.at_most(Single { bits: ZERO }) ==> late.at_most(early)
            &&& (Single { bits: ZERO }).at_most(step) ==> early.at_most(late)
        },
{
    if let Pitch::Step { step, min, max } = sound.pitch {
        let a = arith(RateFormula::Step { step, n: k as u32 });
        let b = arith(RateFormula::Step { step, n: l as u32 });
        a_step_run_is_clamped_arithmetic(st, sound, k, limits, arith);
        a_step_run_is_clamped_arithmetic(st, sound, l, limits, arith);
        if step.at_most(Single { bits: ZERO }) {
            bounds_keep_the_order(sound.pitch, b, a, limits);
        }
        if (Single { bits: ZERO }).at_most(step) {
            bounds_keep_the_order(sound.pitch, a, b, limits);
        }
    }
}

/// A rate that every bound allows is played as it is.
pub proof fn rates_in_range_are_untouched(
    step: Single,
    min: Single,
    max: Single,
    raw: Single,
    limits: SpeedLimits,
)
    requires
        min.at_most(raw),
        raw.at_most(max),
        limits.slowest.at_most(raw),
        raw.at_most(limits.fastest),
    ensures
        bounded(Pitch::Step { step, min, max }, raw, limits) == raw,
        bounded(Pitch::Random { min, max }, raw, limits) == raw,
{
}

/// A press as it comes in: the clip's id, and whether it is an audition.
pub struct PressView {
    pub id: Seq<char>,
    pub audition: bool,
}

/// Whether a press counts for the walk: it is no audition, and the profile in
/// use has the clip.
pub open spec fn counts(cfg: ConfigView, press: PressView) -> bool {
    !press.audition && cfg.sound_spec(press.id) is Some
}

/// The walk after a press, as [`play`] leaves it.
pub open spec fn after_press(
    cfg: ConfigView,
    st: PitchStateView,
    press: PressView,
) -> PitchStateView {
    if counts(cfg, press) {
        pressed(st, cfg.sound_spec(press.id)->0.id)
    } else {
        st
    }
}

/// The walk after a run of presses.
pub open spec fn after_run(
    cfg: ConfigView,
    st: PitchStateView,
    run: Seq<PressView>,
) -> PitchStateView
    decreases run.len(),
{
    if run.len() == 0 {
        st
    } else {
        after_press(cfg, after_run(cfg, st, run.drop_last()), run.last())
    }
}

/// The rates of the presses of a run that count, in order, as [`play`] gives
/// them, if `arith` is the arithmetic.
pub open spec fn run_speeds(
    cfg: ConfigView,
    st: PitchStateView,
    run: Seq<PressView>,
    limits: SpeedLimits,
    arith: spec_fn(RateFormula) -> Single,
) -> Seq<Single>
    decreases run.len(),
{
    if run.len() == 0 {
        Seq::empty()
    } else {
        let before = run_speeds(cfg, st, run.drop_last(), limits, arith);
        if counts(cfg, run.last()) {
            let sound = cfg.sound_spec(run.last().id)->0;
            let walk = after_run(cfg, st, run.drop_last());
            before.push(
                press_speed(walk, sound, arith(formula(sound.pitch, pressed(walk, sound.id).n)), limits),
            )
        } else {
            before
        }
    }
}

/// Auditions and presses of clips that are not there neither advance nor reset
/// the walk: put in between at will, they change neither the rates of the other
/// presses nor where the walk ends.
pub proof fn auditions_do_not_touch_the_walk(
    cfg: ConfigView,
    st: PitchStateView,
    run: Seq<PressView>,
    limits: SpeedLimits,
    arith: spec_fn(RateFormula) -> Single,
)
    ensures
        after_run(cfg, st, run) == after_run(
            cfg,
            st,
            run.filter(|p: PressView| counts(cfg, p)),
        ),
        run_speeds(cfg, st, run, limits, arith) == run_speeds(
            cfg,
            st,
            run.filter(|p: PressView| counts(cfg, p)),
            limits,
            arith,
        ),
    decreases run.len(),
{
    let keep = |p: PressView| counts(cfg, p);
    reveal(Seq::filter);
    if run.len() > 0 {
        let less = run.drop_last();
        auditions_do_not_touch_the_walk(cfg, st, less, limits, arith);
        assert(run.filter(keep) == if counts(cfg, run.last()) {
            less.filter(keep).push(run.last())
        } else {
            less.filter(keep)
        });
        assert(less.filter(keep).push(run.last()).drop_last() =~= less.filter(keep));
    } else {
        assert(run.filter(keep) =~= run);
    }
}

/// A random rate is drawn between the clip's two bounds: the arithmetic starts at
/// the lesser of them and spans to the greater, whichever way round the clip has
/// them. If one of them is no number, it starts at the other one.
pub proof fn random_arithmetic_spans_the_range(min: Single, max: Single, n: nat)
    ensures
        formula(Pitch::Random { min, max }, n) matches RateFormula::Random {
            low,
            min: from,
            max: to,
        } && {
            &&& min.at_most(min) && max.at_most(max) ==> {
                &&& low == from
                &&& from.at_most(to)
                &&& (from == min && to == max) || (from == max && to == min)
            }
            &&& !min.at_most(min) || !max.at_most(max) ==> {
                &&& from == min
                &&& to == max
                &&& max.at_most(max) ==> low == max
                &&& min.at_most(min) ==> low == min
            }
        },
{
}

/// A random rate stays in the clip's range: whatever the arithmetic draws between
/// its start and the end of its span lies between the clip's two bounds, and is
/// played as it is if the player can do it.
pub proof fn random_rates_stay_in_range(
    st: PitchStateView,
    sound: SoundView,
    n: nat,
    raw: Single,
    limits: SpeedLimits,
)
    requires
        st.on,
        limits.slowest.at_most(limits.fastest),
        sound.pitch matches Pitch::Random { min, max } && min.at_most(min) && max.at_most(max),
        formula(sound.pitch, n) matches RateFormula::Random { low, min, max } && low.at_most(raw)
            && raw.at_most(max),
    ensures
        sound.pitch matches Pitch::Random { min, max } && {
            &&& min.at_most(raw) || max.at_most(raw)
            &&& raw.at_most(min) || raw.at_most(max)
            &&& min.at_most(max) ==> min.at_most(raw) && raw.at_most(max)
            &&& max.at_most(min) ==> max.at_most(raw) && raw.at_most(min)
        },
        limits.slowest.at_most(raw) && raw.at_most(limits.fastest) ==> press_speed(
            st,
            sound,
            raw,
            limits,
        ) == raw,
        raw.at_most(limits.slowest) && !limits.slowest.at_most(raw) ==> press_speed(
            st,
            sound,
            raw,
            limits,
        ) == limits.slowest,
        limits.fastest.at_most(raw) && !raw.at_most(limits.fastest) ==> press_speed(
            st,
            sound,
            raw,
            limits,
        ) == limits.fastest,
{
}

/// While pitch mod is off every press is flat; and while it is on, a stepped rate
/// is the nearest to what the arithmetic gave that the clip's bounds allow, and
/// then the nearest that the player can do. A random one is the latter at once.
pub proof fn rates_are_flat_or_the_nearest_allowed(
    st: PitchStateView,
    sound: SoundView,
    raw: Single,
    limits: SpeedLimits,
)
    ensures
        !st.on ==> press_speed(st, sound, raw, limits).bits == 0x3f80_0000,
        st.on ==> (sound.pitch matches Pitch::Step { step, min, max } ==> press_speed(
            st,
            sound,
            raw,
            limits,
        ) == raw.clamp_spec(min.min_spec(max), max.max_spec(min)).clamp_spec(
            limits.slowest,
            limits.fastest,
        )),
        st.on && sound.pitch is Random ==> press_speed(st, sound, raw, limits) == raw.clamp_spec(
            limits.slowest,
            limits.fastest,
        ),
{
}

/// A press changes the walk only if it is no audition and names a clip of the
/// profile in use. It then counts for that clip: on from the last press if that
/// was of the same clip, and from zero otherwise; and while pitch mod is off, it
/// leaves the walk to no clip.
pub proof fn a_press_counts_for_the_clip_it_names(
    cfg: ConfigView,
    st: PitchStateView,
    press: PressView,
)
    ensures
        press.audition || cfg.sound_spec(press.id) is None ==> after_press(cfg, st, press) == st,
        !press.audition && cfg.sound_spec(press.id) is Some ==> {
            let now = after_press(cfg, st, press);
            &&& now.on == st.on
            &&& !st.on ==> now.last is None && now.n == st.n
            &&& st.on ==> now.last == Some(press.id)
            &&& st.on && st.last == Some(press.id) ==> now.n == st.n + 1
            &&& st.on && st.last != Some(press.id) ==> now.n == 0
        },
{
    the_clip_found_is_the_one_asked_for(cfg, press.id);
}

/// The switch does what it says, and forgets the walk.
pub proof fn the_switch_forgets_the_walk(on: bool)
    ensures
        switched(on).on == on,
        switched(on).last is None,
        switched(on).n == 0,
        tooltip(on) == if on {
            "Thunderboard - pitch mod ON"@
        } else {
            "Thunderboard"@
        },
{
}

/// A press can be played out whenever pitch mod is off, and otherwise unless the
/// same clip was pressed as often as can be counted, or no bound of its stepped
/// walk is a number.
pub proof fn everyday_presses_can_be_played(st: PitchStateView, sound: SoundView)
    ensures
        sound.pitch is Random ==> has_range(sound.pitch),
        sound.pitch matches Pitch::Step { step, min, max } ==> (min.at_most(min) || max.at_most(max)
            ==> has_range(sound.pitch)),
        !st.on ==> playable(st, sound),
        (st.last != Some(sound.id) || st.n < 0xffff_ffff) && sound.pitch is Random ==> playable(
            st,
            sound,
        ),
        st.last != Some(sound.id) || st.n < 0xffff_ffff ==> (sound.pitch matches Pitch::Step {
            step,
            min,
            max,
        } ==> (min.at_most(min) || max.at_most(max) ==> playable(st, sound))),
{
}

/// Any two rates that are in order can be the player's limits.
pub proof fn limits_need_only_be_in_order(limits: SpeedLimits)
    ensures
        limits.valid() <==> limits.slowest.at_most(limits.fastest),
{
}

/// The walk is shown as it is.
pub proof fn the_walk_is_shown_as_it_is(st: PitchState)
    ensures
        st@.on == st.on,
        st@.n == st.n,
        st.last is None ==> st@.last is None,
        st.last matches Some(id) ==> st@.last == Some(id@),
{
}

/// The arithmetic of a stepped walk is asked for the clip's step and as many
/// repeats as there were.
pub proof fn a_stepped_rate_counts_the_repeats(step: Single, min: Single, max: Single, n: u32)
    ensures
        formula(Pitch::Step { step, min, max }, n as nat) == (RateFormula::Step { step, n }),
{
}

} // verus!
