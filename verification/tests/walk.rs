use thunderboard::config::{Config, Pitch, Sound};
use thunderboard::ids::uid;
use thunderboard::pitch::{
    bound_speed, can_press, next_speed, play, rand01, set_pitch_mod, toggle_pitch_mod, PitchState,
    RateFormula, SpeedLimits,
};
use thunderboard::single::Single;

const MIN_SPEED: f32 = 0.1;
const MAX_SPEED: f32 = 4.0;

fn single(v: f32) -> Single {
    Single { bits: v.to_bits() }
}

fn value(s: Single) -> f32 {
    f32::from_bits(s.bits)
}

fn limits() -> SpeedLimits {
    SpeedLimits { slowest: single(MIN_SPEED), fastest: single(MAX_SPEED) }
}

fn nanos() -> u32 {
    std::time::SystemTime::now()
        .duration_since(std::time::UNIX_EPOCH)
        .map(|d| d.subsec_nanos())
        .unwrap_or(0)
}

fn eval(rate: RateFormula) -> Single {
    match rate {
        RateFormula::Step { step, n } => single(1.0 + value(step) * n as f32),
        RateFormula::Random { low, min, max } => {
            let r = rand01(nanos()) as f32 / 65_535.0;
            single(value(low) + r * (value(max) - value(min)).abs())
        }
    }
}

fn speed(st: &mut PitchState, sound: &Sound) -> f32 {
    value(next_speed(st, sound, limits(), eval))
}

fn step(step: f32, min: f32, max: f32) -> Pitch {
    Pitch::Step { step: single(step), min: single(min), max: single(max) }
}

fn sound(id: &str, pitch: Pitch) -> Sound {
    Sound {
        id: id.into(),
        name: id.into(),
        file: String::new(),
        hotkey: String::new(),
        volume: single(1.0),
        offset: single(0.0),
        pitch,
    }
}

#[test]
fn pitch_walk() {
    let down = sound("a", step(-0.2, 0.4, 2.0));
    let other = sound("b", step(-0.2, 0.4, 2.0));
    let mut st = PitchState::default();

    // Mod off: always dead flat, and no walk is accumulated.
    assert_eq!(speed(&mut st, &down), 1.0);
    assert_eq!(speed(&mut st, &down), 1.0);

    st.on = true;
    assert_eq!(speed(&mut st, &down), 1.0); // first press is untouched
    assert!((speed(&mut st, &down) - 0.8).abs() < 1e-6);
    assert!((speed(&mut st, &down) - 0.6).abs() < 1e-6);

    // A different clip restarts the walk...
    assert_eq!(speed(&mut st, &other), 1.0);
    // ...and coming back restarts it again rather than resuming.
    assert_eq!(speed(&mut st, &down), 1.0);

    // The floor holds no matter how long the run gets.
    for _ in 0..50 {
        assert!(speed(&mut st, &down) >= 0.4);
    }

    // Toggling off resets, so the next run starts from flat.
    st.on = false;
    assert_eq!(speed(&mut st, &down), 1.0);
    st.on = true;
    assert_eq!(speed(&mut st, &down), 1.0);
}

#[test]
fn random_stays_in_range() {
    let s = sound("a", Pitch::Random { min: single(0.5), max: single(1.8) });
    let mut st = PitchState { on: true, ..Default::default() };
    for _ in 0..200 {
        let v = speed(&mut st, &s);
        assert!((0.5..=1.8).contains(&v), "{v} out of range");
    }
}

#[test]
fn absurd_config_is_clamped_not_trusted() {
    // Hand-edited JSON must not be able to produce a 0x or negative rate.
    let s = sound("a", step(-5.0, -10.0, 500.0));
    let mut st = PitchState { on: true, ..Default::default() };
    for _ in 0..10 {
        let v = speed(&mut st, &s);
        assert!(v >= MIN_SPEED && v <= MAX_SPEED, "{v}");
    }
}

#[test]
fn default_pitch_walks_down() {
    match Pitch::default() {
        Pitch::Step { step, min, max } => {
            assert_eq!(value(step), -0.12);
            assert_eq!(value(min), 0.35);
            assert_eq!(value(max), 2.5);
        }
        Pitch::Random { .. } => panic!("the default walk is stepped"),
    }
}

#[test]
fn state_counts_repeats_and_forgets() {
    let a = sound("a", Pitch::default());
    let b = sound("b", Pitch::default());
    let mut st = PitchState { on: true, ..Default::default() };
    for n in 0..5 {
        speed(&mut st, &a);
        assert_eq!(st.n, n);
        assert_eq!(st.last.as_deref(), Some("a"));
    }
    speed(&mut st, &b);
    assert_eq!((st.n, st.last.as_deref()), (0, Some("b")));
    speed(&mut st, &b);
    assert_eq!(st.n, 1);

    assert_eq!(set_pitch_mod(&mut st, false), "Thunderboard");
    assert_eq!((st.on, st.n, st.last.clone()), (false, 0, None));
    assert_eq!(toggle_pitch_mod(&mut st), "Thunderboard - pitch mod ON");
    assert!(st.on);
    speed(&mut st, &b);
    speed(&mut st, &b);
    assert_eq!(toggle_pitch_mod(&mut st), "Thunderboard");
    assert_eq!((st.on, st.n, st.last.clone()), (false, 0, None));

    // Pressing while it is off keeps the counter but frees the walk.
    st.n = 3;
    st.last = Some("b".into());
    assert_eq!(speed(&mut st, &b), 1.0);
    assert_eq!((st.n, st.last.clone()), (3, None));
}

#[test]
fn random_rates_do_not_depend_on_the_count() {
    let s = sound("a", Pitch::Random { min: single(1.5), max: single(0.5) });
    let mut st = PitchState { on: true, ..Default::default() };
    for _ in 0..3 {
        next_speed(&mut st, &s, limits(), |rate| {
            assert_eq!(
                rate,
                RateFormula::Random { low: single(0.5), min: single(0.5), max: single(1.5) }
            );
            single(0.75)
        });
    }
    assert_eq!(st.n, 2);
}

#[test]
fn rates_are_kept_in_bounds() {
    let p = step(0.0, 0.5, 2.0);
    assert_eq!(value(bound_speed(p, single(1.25), limits())), 1.25);
    assert_eq!(value(bound_speed(p, single(0.25), limits())), 0.5);
    assert_eq!(value(bound_speed(p, single(3.0), limits())), 2.0);
    assert_eq!(value(bound_speed(p, single(-3.0), limits())), 0.5);
    assert_eq!(value(bound_speed(p, single(f32::INFINITY), limits())), 2.0);
    assert!(value(bound_speed(p, single(f32::NAN), limits())).is_nan());
    // Either way round.
    let q = step(0.0, 2.0, 0.5);
    assert_eq!(value(bound_speed(q, single(3.0), limits())), 2.0);
    assert_eq!(value(bound_speed(q, single(0.25), limits())), 0.5);
    // One bound that is no number leaves the other one.
    let r = step(0.0, f32::NAN, 0.5);
    assert_eq!(value(bound_speed(r, single(3.0), limits())), 0.5);
    // The player has the last word.
    let wide = step(0.0, -10.0, 500.0);
    assert_eq!(value(bound_speed(wide, single(400.0), limits())), MAX_SPEED);
    assert_eq!(value(bound_speed(wide, single(-4.0), limits())), MIN_SPEED);
    let random = Pitch::Random { min: single(0.5), max: single(0.6) };
    assert_eq!(value(bound_speed(random, single(3.0), limits())), 3.0);
    assert_eq!(value(bound_speed(random, single(9.0), limits())), MAX_SPEED);
}

#[test]
fn comparisons_agree_with_the_machine() {
    let values = [
        0.0f32, -0.0, 1.0, -1.0, 0.5, -0.5, 1e-40, -1e-40, 3.3e38, -3.3e38, f32::INFINITY,
        f32::NEG_INFINITY, f32::NAN, f32::MIN_POSITIVE, f32::MAX, f32::MIN,
    ];
    for a in values {
        assert_eq!(single(a).is_nan(), a.is_nan());
        for b in values {
            assert_eq!(single(a).le(single(b)), a <= b, "{a} {b}");
            let (low, high) = (value(single(a).min(single(b))), value(single(a).max(single(b))));
            if a.is_nan() && b.is_nan() {
                assert!(low.is_nan() && high.is_nan());
            } else {
                assert_eq!(low, a.min(b));
                assert_eq!(high, a.max(b));
            }
            for c in values {
                if b <= c && !a.is_nan() {
                    assert_eq!(value(single(a).clamp(single(b), single(c))), a.clamp(b, c));
                }
            }
        }
    }
}

#[test]
fn jitter_is_mixed() {
    for n in [0u32, 1, 255, 256, 123_456_789, 999_999_999, u32::MAX] {
        let expected = (n.wrapping_mul(2_654_435_761) >> 8) & 0xffff;
        assert_eq!(rand01(n) as u32, expected);
    }
    assert_eq!(rand01(1), 0x3779);
}

fn board() -> Config {
    let mut cfg = Config::default(uid(1, 0));
    let mut clip = sound("x", step(-0.2, 0.4, 2.0));
    clip.file = "C:\\clips\\x.mp3".into();
    clip.volume = single(0.5);
    clip.offset = single(-1.5);
    cfg.profiles[0].sounds.push(clip);
    cfg.master_volume = single(0.25);
    cfg
}

#[test]
fn a_press_plays_the_clip() {
    let cfg = board();
    let mut st = PitchState { on: true, ..Default::default() };
    let p = play(&cfg, &mut st, "x", false, limits(), eval).unwrap();
    assert_eq!(p.path, "C:\\clips\\x.mp3");
    assert_eq!(value(p.speed), 1.0);
    assert_eq!((value(p.volume), value(p.master_volume)), (0.5, 0.25));
    // A negative offset counts as none.
    assert_eq!(value(p.offset), 0.0);
    assert!(!p.monitor_only);
    let p = play(&cfg, &mut st, "x", false, limits(), eval).unwrap();
    assert!((value(p.speed) - 0.8).abs() < 1e-6);

    // An audition is flat and leaves the walk alone.
    let p = play(&cfg, &mut st, "x", true, limits(), eval).unwrap();
    assert_eq!(value(p.speed), 1.0);
    assert!(p.monitor_only);
    assert_eq!((st.n, st.last.as_deref()), (1, Some("x")));

    // A clip that is not there plays nothing.
    assert!(play(&cfg, &mut st, "y", false, limits(), eval).is_none());
    assert_eq!((st.n, st.last.as_deref()), (1, Some("x")));
}

#[test]
fn random_bounds_go_either_way_round() {
    let asked = |min: f32, max: f32| {
        let s = sound("a", Pitch::Random { min: single(min), max: single(max) });
        let mut st = PitchState { on: true, ..Default::default() };
        let seen = std::cell::Cell::new(None);
        let rate = next_speed(&mut st, &s, limits(), |rate| {
            seen.set(Some(rate));
            single(9.0)
        });
        (seen.get().unwrap(), rate)
    };
    let expected = RateFormula::Random { low: single(0.5), min: single(0.5), max: single(1.5) };
    assert_eq!(asked(0.5, 1.5), (expected, single(MAX_SPEED)));
    assert_eq!(asked(1.5, 0.5), asked(0.5, 1.5));
    assert_eq!(asked(0.0, -0.0), asked(-0.0, 0.0));
    // A bound that is no number makes the whole rate none.
    match asked(f32::NAN, 0.5).0 {
        RateFormula::Random { low, min, max } => {
            assert_eq!((value(low), value(max)), (0.5, 0.5));
            assert!(value(min).is_nan());
        }
        RateFormula::Step { .. } => panic!("the range is random"),
    }
}

#[test]
fn auditions_leave_the_walk_alone() {
    let cfg = board();
    let run = |presses: &[(&str, bool)]| {
        let mut st = PitchState { on: true, ..Default::default() };
        let mut rates = Vec::new();
        for &(id, audition) in presses {
            let press = play(&cfg, &mut st, id, audition, limits(), eval);
            if let (Some(p), false) = (press, audition) {
                rates.push(p.speed);
            }
        }
        (rates, st.n, st.last)
    };
    let plain = run(&[("x", false), ("x", false), ("x", false)]);
    assert_eq!(plain.0.len(), 3);
    assert!((value(plain.0[2]) - 0.6).abs() < 1e-6);
    let mixed = run(&[
        ("x", true),
        ("x", false),
        ("gone", false),
        ("x", true),
        ("x", false),
        ("gone", true),
        ("x", false),
        ("x", true),
    ]);
    assert_eq!(mixed, plain);
}

#[test]
fn presses_that_cannot_be_played_are_told() {
    let a = sound("a", Pitch::default());
    let mut st = PitchState { on: true, last: Some("a".into()), n: u32::MAX };
    assert!(!can_press(&st, &a));
    assert!(can_press(&st, &sound("b", Pitch::default())));
    st.n -= 1;
    assert!(can_press(&st, &a));
    let none = sound("c", step(0.1, f32::NAN, f32::NAN));
    assert!(!can_press(&st, &none));
    assert!(can_press(&st, &sound("c", step(0.1, f32::NAN, 1.0))));
    st.on = false;
    assert!(can_press(&st, &none));
}

#[test]
fn bounds_keep_the_order_of_rates() {
    let raws = [f32::NEG_INFINITY, -3.0, 0.0, 0.3, 0.5, 1.0, 1.7, 2.0, 3.9, 4.0, f32::INFINITY];
    let random = Pitch::Random { min: single(0.5), max: single(0.6) };
    for pitch in [step(0.1, 0.5, 2.0), step(0.1, 2.0, 0.5), step(0.1, -9.0, 9.0), random] {
        for pair in raws.windows(2) {
            let low = value(bound_speed(pitch, single(pair[0]), limits()));
            let high = value(bound_speed(pitch, single(pair[1]), limits()));
            assert!(low <= high, "{pair:?}");
        }
    }
}

#[test]
fn step_runs_keep_their_direction() {
    for by in [-5.0f32, -0.2, -1e-9, -0.0, 0.0, 1e-9, 0.3, 7.0, f32::MAX, f32::MIN] {
        for (min, max) in [(0.4, 2.0), (2.0, 0.4), (-10.0, 500.0)] {
            let s = sound("a", step(by, min, max));
            let mut st = PitchState { on: true, ..Default::default() };
            let rates: Vec<f32> = (0..40).map(|_| speed(&mut st, &s)).collect();
            let (lo, hi) = (min.min(max), max.max(min));
            for (k, rate) in rates.iter().enumerate() {
                let expected = (1.0 + by * k as f32).clamp(lo, hi).clamp(MIN_SPEED, MAX_SPEED);
                assert_eq!(*rate, expected);
            }
            if by <= 0.0 {
                assert!(rates.windows(2).all(|w| w[1] <= w[0]), "{by}");
            }
            if by >= 0.0 {
                assert!(rates.windows(2).all(|w| w[1] >= w[0]), "{by}");
            }
        }
    }
}
