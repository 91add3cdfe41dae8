use kopeysk::dsp::{Biquad, DspEngine, BLOCK};
use kopeysk::equalizer::{live_gain, shared_level};
use kopeysk::meters::{arc_degrees, spectrum_bin, tick_degrees, BARS, LAST_BIN};
use kopeysk::single::{single_of, strays, whole_single};

#[test]
fn a_section_remembers_two_samples() {
    let mut section = Biquad::at_rest(1.0f32, 2.0, 3.0, 4.0, 5.0, 0.0);
    assert_eq!((section.b0, section.b1, section.b2), (1.0, 2.0, 3.0));
    assert_eq!((section.a1, section.a2), (4.0, 5.0));
    assert_eq!((section.x1, section.x2, section.y1, section.y2), (0.0, 0.0, 0.0, 0.0));
    section.record(10.0, 20.0);
    assert_eq!((section.x1, section.x2, section.y1, section.y2), (10.0, 0.0, 20.0, 0.0));
    section.record(11.0, 21.0);
    assert_eq!((section.x1, section.x2, section.y1, section.y2), (11.0, 10.0, 21.0, 20.0));
    section.record(12.0, 22.0);
    assert_eq!((section.x1, section.x2, section.y1, section.y2), (12.0, 11.0, 22.0, 21.0));
    assert_eq!((section.b0, section.a2), (1.0, 5.0));
}

fn bits(gains: [f32; 10]) -> [u32; 10] {
    gains.map(f32::to_bits)
}

#[test]
fn moved_sliders_are_followed_once() {
    let gains = [0.0, 0.05, -0.1, 0.11, 3.0, 3.7, -15.0, 15.0, 2.95, -7.5];
    let mut engine: DspEngine<f32> = DspEngine::new(bits(gains));
    let mut levels = [20u32; 10];
    for (band, gain) in gains.iter().enumerate() {
        levels[band] = (gain + 20.0) as u32;
    }
    assert!(engine.retune(&levels));
    let expected = [0.0, 0.05, -1.0, 0.0, 3.0, 3.0, -15.0, 15.0, 2.0, -8.0];
    assert_eq!(engine.last_eq, bits(expected));
    assert!(!engine.retune(&levels));
    assert_eq!(engine.last_eq, bits(expected));
    levels[4] = 24;
    assert!(engine.retune(&levels));
    assert_eq!(f32::from_bits(engine.last_eq[4]), 4.0);
    assert_eq!(f32::from_bits(engine.last_eq[1]), 0.05);
    assert!(!engine.retune(&levels));
}

#[test]
fn sliders_count_as_moved_as_singles_compare() {
    let odd = [
        0.1, -0.1, 0.099_999_99, 0.100_000_01, 1.1, 0.9, 1.099_999_9, 1e-30, -1e-42, 1e20, -1e30,
        16_777_216.0, 8_388_608.5, 2_147_483_648.0, 1.0e9, f32::MAX, f32::INFINITY,
        f32::NEG_INFINITY, f32::NAN, f32::MIN_POSITIVE, -0.0, 4_294_967_296.0, 1e-6,
    ];
    let levels = [
        0u32, 1, 19, 20, 21, 22, 40, 16_777_235, 16_777_236, 16_777_237, 16_777_239, 33_554_455,
        1_000_000_020, 1_000_000_055, 0x7fff_ffff, 0x8000_0014, 0xffff_ffff, 8_388_628, 8_388_629,
    ];
    for gain in odd {
        for level in levels {
            let mut engine: DspEngine<f32> = DspEngine::new([gain.to_bits(); 10]);
            let value = (level as i32 - 20) as f32;
            let moved = (value - gain).abs() > 0.1;
            assert_eq!(engine.retune(&[level; 10]), moved);
            let expected = if moved { value } else { gain };
            assert_eq!(engine.last_eq, [expected.to_bits(); 10]);
        }
    }
}

#[test]
fn levels_are_those_of_the_sum_as_singles() {
    let odd = [
        0.0, -0.0, 0.5, -0.5, 14.999_999, 15.0, -15.0, -20.0, -19.999_999, -20.5, -1e-7, -1e-6,
        1e-30, -1e-42, 3.7, -3.7, 1e9, 4_294_967_275.0, 4_294_967_296.0, 1e20, -1e20, 0.999_999,
        8_388_588.5, 8_388_587.5, 16_777_197.0, 16_777_196.0, f32::MAX, f32::MIN,
        f32::INFINITY, f32::NEG_INFINITY, f32::NAN, 1e-6, 2e-6, -2e-6, 4.0e9, 2.5e8,
    ];
    for gain in odd {
        assert_eq!(shared_level(gain.to_bits()), (gain + 20.0) as u32);
    }
    let mut gain = -22.0f32;
    while gain < 22.0 {
        assert_eq!(shared_level(gain.to_bits()), (gain + 20.0) as u32);
        gain += 0.013;
    }
}

#[test]
fn whole_gains_come_back_from_their_levels() {
    for whole in -20..100 {
        let gain = single_of(whole as i64);
        assert_eq!(gain, (whole as f32).to_bits());
        assert_eq!(live_gain(shared_level(gain)), whole);
        assert!(!strays(whole as i64, gain));
        assert!(strays(whole as i64 + 1, gain));
    }
}

#[test]
fn whole_numbers_become_singles() {
    for whole in [
        0i64, 1, -1, 20, 16_777_215, 16_777_216, 16_777_217, 16_777_219, -16_777_217, 33_554_434,
        33_554_435, 33_554_438, 2_147_483_647, -2_147_483_648, 4_294_967_295, -4_294_967_296,
    ] {
        assert_eq!(single_of(whole), (whole as f32).to_bits());
        assert_eq!(whole_single(whole), (whole as f32) as i64);
    }
}

#[test]
fn a_stream_is_cut_into_blocks() {
    let mut engine: DspEngine<usize> = DspEngine::new([0; 10]);
    let mut blocks = Vec::new();
    for sample in 0..2 * BLOCK + 5 {
        if let Some(block) = engine.push(sample) {
            blocks.push((sample, block));
        }
    }
    assert_eq!(BLOCK, 1024);
    assert_eq!(blocks.len(), 2);
    assert_eq!(blocks[0].0, 1023);
    assert_eq!(blocks[1].0, 2047);
    assert_eq!(blocks[0].1, (0..1024).collect::<Vec<usize>>());
    assert_eq!(blocks[1].1, (1024..2048).collect::<Vec<usize>>());
    assert_eq!(engine.window, (2048..2053).collect::<Vec<usize>>());
}

#[test]
fn bars_follow_the_curve() {
    let bins: Vec<usize> = (0..BARS).map(spectrum_bin).collect();
    assert_eq!(
        bins,
        [1, 2, 5, 12, 22, 35, 53, 74, 98, 127, 161, 198, 239, 285, 336, 391]
    );
    for bar in 0..BARS {
        let bin = ((bar as f32 / 16.0).powf(2.2) * 450.0) as usize + 1;
        assert_eq!(bins[bar], bin.min(LAST_BIN));
    }
}

#[test]
fn the_dial_spans_a_hundred_degrees() {
    let arc = arc_degrees();
    let ticks = tick_degrees();
    assert_eq!(arc.len(), 51);
    assert_eq!(ticks.len(), 11);
    for i in 0..=50 {
        assert_eq!(arc[i] as f32, 180.0 + 40.0 + (i as f32 * 2.0));
    }
    for i in 0..11 {
        assert_eq!(ticks[i] as f32, 180.0 + 40.0 + (i as f32 * 10.0));
        assert!(arc.contains(&ticks[i]));
    }
}
