use logue_sdk::oscapi::lut::{
    bitres_lookup, lut_lookup, note_index, note_span, pick1, pick1_in_bounds, position_index,
    wave_scan, Lookup, WaveScan, BITRES_LUT_LEN, MIDI_TO_HZ_LUT_LEN, WAVE_LEN, WAVE_STEPS,
};

fn stream(count: usize) -> Vec<u32> {
    let mut state: u64 = 0x2545_f491_4f6c_dd1d;
    let mut out = Vec::with_capacity(count);
    for _ in 0..count {
        state = state.wrapping_mul(6364136223846793005).wrapping_add(1442695040888963407);
        out.push((state >> 32) as u32);
    }
    out
}

fn scaled(x: f32, len: usize) -> u32 {
    (x * (len - 1) as f32).to_bits()
}

#[test]
fn pick_at_zero_returns_the_first_option() {
    let opts = [10u8, 20, 30, 40];
    assert_eq!(pick1(&opts, scaled(0.0, opts.len())), Some(10));
    assert_eq!(pick1(&opts[..1], scaled(0.0, 1)), Some(10));
}

#[test]
fn pick_at_one_returns_the_last_option() {
    let opts = [10u8, 20, 30, 40];
    assert_eq!(pick1(&opts, scaled(1.0, opts.len())), Some(40));
    let many: Vec<u32> = (0..1000).collect();
    assert_eq!(pick1(&many, scaled(1.0, many.len())), Some(999));
}

#[test]
fn pick_from_a_single_option_ignores_the_position() {
    let opts = [7u16];
    for x in [0.0f32, 1.0, 0.3, -4.0, 1.0e30, f32::INFINITY, f32::NEG_INFINITY, f32::NAN] {
        assert_eq!(pick1(&opts, scaled(x, 1)), Some(7), "position {x}");
    }
    for bits in stream(10_000) {
        assert_eq!(pick1(&opts, scaled(f32::from_bits(bits), 1)), Some(7));
    }
}

#[test]
fn pick_reads_the_position_as_a_cast_does() {
    let opts: Vec<usize> = (0..16).collect();
    for bits in stream(200_000) {
        let xf = f32::from_bits(bits);
        assert_eq!(pick1(&opts, bits), opts.get(xf as usize).copied(), "position {xf}");
    }
    for i in 0..=16383u16 {
        let x = i as f32 / 16383.0;
        let xf = x * 15.0;
        assert_eq!(pick1(&opts, xf.to_bits()), Some(xf as usize));
    }
}

#[test]
fn pick_past_the_end_returns_nothing() {
    let opts = [1u8, 2, 3];
    assert_eq!(pick1(&opts, 3.0f32.to_bits()), None);
    assert_eq!(pick1(&opts, 2.999f32.to_bits()), Some(3));
    assert_eq!(pick1(&opts, f32::INFINITY.to_bits()), None);
    assert_eq!(pick1(&opts, f32::MAX.to_bits()), None);
    assert_eq!(pick1(&opts, (-1.0f32).to_bits()), Some(1));
    assert_eq!(pick1(&opts, f32::NAN.to_bits()), Some(1));
    let none: [u8; 0] = [];
    assert_eq!(pick1(&none, 0), None);
}

#[test]
fn pick_in_bounds_returns_the_option_itself() {
    let opts = [10u8, 20, 30, 40];
    for k in 0..4usize {
        assert_eq!(pick1_in_bounds(&opts, (k as f32).to_bits()), opts[k]);
        assert_eq!(pick1_in_bounds(&opts, (k as f32 + 0.75).to_bits()), opts[k]);
    }
    assert_eq!(pick1_in_bounds(&opts, scaled(1.0, opts.len())), 40);
    assert_eq!(pick1_in_bounds(&opts, (-5.0f32).to_bits()), 10);
}

#[test]
fn a_wavetable_has_128_steps_and_repeats_its_first_entry() {
    assert_eq!(WAVE_LEN, 129);
    assert_eq!(WAVE_STEPS, WAVE_LEN - 1);
    for bits in stream(50_000) {
        let scan = wave_scan(bits % 0x3f80_0000);
        assert!(scan.lo < WAVE_STEPS && scan.hi < WAVE_STEPS);
        assert_eq!(scan.hi, (scan.lo + 1) % WAVE_STEPS);
        assert!(scan.fraction < 0x3f80_0000);
    }
}

#[test]
fn position_index_saturates_by_reporting_nothing() {
    assert_eq!(position_index(0), Some(0));
    assert_eq!(position_index(5.5f32.to_bits()), Some(5));
    assert_eq!(position_index(0x5f7f_ffff), Some(0xffff_ff00_0000_0000));
    assert_eq!(position_index(0x5f80_0000), None);
    assert_eq!(position_index(f32::INFINITY.to_bits()), None);
    assert_eq!(position_index(f32::NEG_INFINITY.to_bits()), Some(0));
    assert_eq!(position_index(0x7fc0_0000), Some(0));
    assert_eq!(position_index(0xffc0_0000), Some(0));
}

#[test]
fn lookup_at_one_is_the_last_entry() {
    assert_eq!(bitres_lookup(1.0f32.to_bits()), Lookup::Last { index: 128 });
    for len in [1usize, 2, 3, 17, 129, 152, 257, 903] {
        assert_eq!(lut_lookup(len, scaled(1.0, len), 0), Lookup::Last { index: len - 1 });
    }
}

#[test]
fn lookup_at_an_entry_has_no_fraction() {
    for k in 0..128u32 {
        let x = k as f32 / 128.0;
        assert_eq!(
            bitres_lookup(x.to_bits()),
            Lookup::Between { lo: k as usize, hi: k as usize + 1, fraction: 0 }
        );
    }
    for len in [2usize, 3, 17, 152, 257] {
        for k in 0..len - 1 {
            assert_eq!(
                lut_lookup(len, (k as f32).to_bits(), 0),
                Lookup::Between { lo: k, hi: k + 1, fraction: 0 }
            );
        }
    }
}

#[test]
fn lookup_between_entries_carries_the_fraction() {
    assert_eq!(
        bitres_lookup(0.5f32.to_bits()),
        Lookup::Between { lo: 64, hi: 65, fraction: 0 }
    );
    // 0.501953125 * 128 = 64.25
    assert_eq!(
        bitres_lookup(0.501953125f32.to_bits()),
        Lookup::Between { lo: 64, hi: 65, fraction: 0.25f32.to_bits() }
    );
    assert_eq!(
        lut_lookup(152, 69.75f32.to_bits(), 0),
        Lookup::Between { lo: 69, hi: 70, fraction: 0.75f32.to_bits() }
    );
    assert_eq!(lut_lookup(152, 151.5f32.to_bits(), 0), Lookup::Last { index: 151 });
    assert_eq!(lut_lookup(1, 0, 0), Lookup::Last { index: 0 });
}

#[test]
fn lookup_agrees_with_the_evaluation_in_single_precision() {
    let len = BITRES_LUT_LEN;
    for bits in stream(200_000) {
        let bits = bits % (0x3f80_0000 + 1);
        let x = f32::from_bits(bits);
        let xf = x * (len - 1) as f32;
        let xi = xf as usize;
        let expected = if xi >= len || xi + 1 >= len {
            Lookup::Last { index: len - 1 }
        } else {
            Lookup::Between { lo: xi, hi: xi + 1, fraction: (xf - xi as f32).to_bits() }
        };
        assert_eq!(bitres_lookup(bits), expected, "position {x}");
        assert_eq!(lut_lookup(len, xf.to_bits(), 0), expected, "position {x}");
    }
}

fn scan_in_single_precision(x: f32) -> WaveScan {
    let p: f32 = x - ((x as u32) as f32);
    let x0f: f32 = p * (WAVE_LEN - 1) as f32;
    let x0: u32 = (x0f as u32) & 127;
    let x1: u32 = (x0 + 1) & 127;
    WaveScan { lo: x0 as usize, hi: x1 as usize, fraction: (x0f - (x0f as u32) as f32).to_bits() }
}

#[test]
fn wave_scan_agrees_with_the_scan_in_single_precision() {
    for bits in stream(200_000) {
        let bits = bits % 0x4f80_0000;
        assert_eq!(wave_scan(bits), scan_in_single_precision(f32::from_bits(bits)));
    }
    for bits in stream(200_000) {
        let bits = bits % 0x3f80_0000;
        assert_eq!(wave_scan(bits), scan_in_single_precision(f32::from_bits(bits)));
    }
}

#[test]
fn wave_scan_wraps_after_a_cycle() {
    assert_eq!(wave_scan(0), WaveScan { lo: 0, hi: 1, fraction: 0 });
    assert_eq!(wave_scan(1.0f32.to_bits()), WaveScan { lo: 0, hi: 1, fraction: 0 });
    assert_eq!(wave_scan(0.5f32.to_bits()), WaveScan { lo: 64, hi: 65, fraction: 0 });
    assert_eq!(wave_scan(1.5f32.to_bits()), WaveScan { lo: 64, hi: 65, fraction: 0 });
    // The last step leads back to the first entry.
    assert_eq!(
        wave_scan(0.998046875f32.to_bits()),
        WaveScan { lo: 127, hi: 0, fraction: 0.75f32.to_bits() }
    );
    for k in 0..1024u32 {
        let x = k as f32 / 1024.0;
        assert_eq!(wave_scan(x.to_bits()), wave_scan((x + 1.0).to_bits()));
        assert_eq!(wave_scan(x.to_bits()), wave_scan((x + 7.0).to_bits()));
    }
}

#[test]
fn notes_past_the_table_read_its_last_entry() {
    assert_eq!(note_index(0), 0);
    assert_eq!(note_index(69), 69);
    assert_eq!(note_index(151), MIDI_TO_HZ_LUT_LEN - 1);
    assert_eq!(note_index(152), 151);
    assert_eq!(note_index(255), 151);
    assert_eq!(note_span(0), (0, 1));
    assert_eq!(note_span(127), (127, 128));
    assert_eq!(note_span(150), (150, 151));
    assert_eq!(note_span(151), (151, 151));
    assert_eq!(note_span(255), (151, 151));
}
