use device_kit::latency::LatencyProbe;
use device_kit::ring::SharedRingBuffer;
use device_kit::source::Source;
use device_kit::{MixerError, SourceHandle};
use device_kit::mixer::Mixer;
use device_kit::sample::Frame;
use device_kit::time::monotonic_timestamp_ns;

const SAMPLE_RATE: u32 = 48_000;
const BLOCK_FRAMES: usize = 256;
const LATENCY_FRAMES: usize = 32;
const SAMPLE_ONE_F: f32 = 1_048_576.0;

fn to_fixed(x: f32) -> i32 {
    (x * SAMPLE_ONE_F).round() as i32
}

fn from_fixed(v: i32) -> f32 {
    v as f32 / SAMPLE_ONE_F
}

fn rms(signal: &[f32]) -> f32 {
    let energy: f32 = signal.iter().map(|s| s * s).sum();
    (energy / signal.len() as f32).sqrt()
}

fn correlation(a: &[f32], b: &[f32]) -> f32 {
    let mut dot = 0.0f64;
    let mut energy_a = 0.0f64;
    let mut energy_b = 0.0f64;
    for (x, y) in a.iter().zip(b.iter()) {
        dot += *x as f64 * *y as f64;
        energy_a += (*x as f64).powi(2);
        energy_b += (*y as f64).powi(2);
    }
    if energy_a == 0.0 || energy_b == 0.0 {
        0.0
    } else {
        (dot / (energy_a.sqrt() * energy_b.sqrt())) as f32
    }
}

#[test]
fn loopback_selftest_sine_through_mixer() {
    let sample_rate = 48_000u32;
    let block_frames = 256usize;
    let mut mixer = Mixer::new(sample_rate, block_frames);
    let handle = mixer.add_source(block_frames * 8);

    let frequency_hz = 1_000.0f32;
    let total_frames = (sample_rate / 10) as usize; // 100ms
    let mut input: Vec<f32> = Vec::with_capacity(total_frames * 2);

    for n in 0..total_frames {
        let phase = frequency_hz * n as f32 / sample_rate as f32;
        let sample = (phase * std::f32::consts::TAU).sin() * 0.5;
        input.push(sample);
        input.push(sample);
    }

    let mut recorded: Vec<f32> = Vec::with_capacity(input.len());
    for chunk in input.chunks(block_frames * 2) {
        let timestamp = monotonic_timestamp_ns();
        let frames_in_chunk = chunk.len() / 2;
        let chunk_fixed: Vec<i32> = chunk.iter().map(|s| to_fixed(*s)).collect();
        mixer
            .write_source(handle, &chunk_fixed, Some(timestamp))
            .expect("write chunk");

        let mut buffer = vec![0i32; block_frames * 2];
        mixer
            .process(&mut buffer, block_frames, 2)
            .expect("process block");
        recorded.extend(buffer[..frames_in_chunk * 2].iter().map(|v| from_fixed(*v)));
    }

    assert_eq!(recorded.len(), input.len());

    let expected_rms = rms(&input);
    let actual_rms = rms(&recorded);
    let amplitude_error = (expected_rms - actual_rms).abs();
    assert!(
        amplitude_error < 0.05,
        "RMS mismatch: expected {expected_rms}, got {actual_rms}"
    );

    let corr = correlation(&input, &recorded);
    assert!(corr > 0.95, "phase correlation too low: {corr}");
}

fn render_block(mixer: &mut Mixer) -> Vec<f32> {
    let mut output = vec![0i32; BLOCK_FRAMES * 2];
    mixer.process(&mut output, BLOCK_FRAMES, 2).unwrap();
    output.iter().map(|v| from_fixed(*v)).collect()
}

#[test]
fn latency_compensation_inserts_expected_delay() {
    let mut mixer = Mixer::new(SAMPLE_RATE, BLOCK_FRAMES);
    let handle = mixer.add_source(8_192);
    mixer.set_gain(handle, 1_048_576).unwrap();
    mixer.set_latency(handle, LATENCY_FRAMES as i32).unwrap();

    let probe = LatencyProbe::new(SAMPLE_RATE, 440, SAMPLE_RATE as usize / 20);
    let total_input_frames = SAMPLE_RATE as usize / 5; // 200 ms of audio.
    let mut tone = vec![Frame::silence(); total_input_frames];
    probe.emit_sine(440, &mut tone);
    let mut input: Vec<f32> = Vec::with_capacity(total_input_frames * 2);
    for f in &tone {
        input.push(from_fixed(f.left));
        input.push(from_fixed(f.right));
    }

    let mut recorded: Vec<f32> = Vec::new();
    let mut cursor = 0usize;

    while recorded.len() < (SAMPLE_RATE as usize / 10) * 2 {
        if cursor < input.len() {
            let end = (cursor + BLOCK_FRAMES * 2).min(input.len());
            let slice = &input[cursor..end];
            let mut remaining_frames = slice.len() / 2;
            let mut offset_samples = 0usize;
            while remaining_frames > 0 {
                let pending: Vec<i32> = slice[offset_samples..]
                    .iter()
                    .map(|s| to_fixed(*s))
                    .collect();
                let wrote = mixer
                    .write_source(handle, &pending, Some(monotonic_timestamp_ns()))
                    .unwrap();
                if wrote == 0 {
                    recorded.extend(render_block(&mut mixer));
                    continue;
                }
                remaining_frames = remaining_frames.saturating_sub(wrote);
                offset_samples += wrote * 2;
            }
            cursor = end;
        }
        recorded.extend(render_block(&mut mixer));
        if cursor >= input.len() && mixer.status().sources[0].buffer_fill_permille == 0 {
            break;
        }
    }

    // Ensure the initial latency window contains near-silence.
    let head_samples = LATENCY_FRAMES * 2;
    assert!(
        recorded.iter().take(head_samples).all(|&s| s.abs() < 1e-4),
        "expected initial {} frames to be silent, found {:?}",
        LATENCY_FRAMES,
        &recorded[..head_samples.min(16)]
    );

    let recorded_frames: Vec<Frame> = recorded
        .chunks_exact(2)
        .map(|p| Frame {
            left: to_fixed(p[0]),
            right: to_fixed(p[1]),
        })
        .collect();
    let report = mixer.measure_latency(&recorded_frames);
    assert!(
        (report.offset_frames as isize - LATENCY_FRAMES as isize).abs() <= 2,
        "measured latency {} differs from expected {}",
        report.offset_frames,
        LATENCY_FRAMES
    );
    let corr = report.correlation as f64 / SAMPLE_ONE_F as f64;
    assert!(corr > 0.8, "correlation too low: {}", corr);
}

#[test]
fn muted_source_output_matches_solo_run() {
    // Two sources, one muted: the mix equals the unmuted source alone,
    // sample-exactly.
    let tone_a: Vec<i32> = (0..512).flat_map(|n| {
        let s = to_fixed((n as f32 * 0.05).sin() * 0.4);
        [s, s]
    }).collect();
    let tone_b: Vec<i32> = (0..512).flat_map(|n| {
        let s = to_fixed((n as f32 * 0.09).sin() * 0.4);
        [s, s]
    }).collect();

    let mut duo = Mixer::new(SAMPLE_RATE, BLOCK_FRAMES);
    let a = duo.add_source(2048);
    let b = duo.add_source(2048);
    duo.write_source(a, &tone_a, Some(1)).unwrap();
    duo.write_source(b, &tone_b, Some(1)).unwrap();
    duo.set_mute(b, true).unwrap();

    let mut solo = Mixer::new(SAMPLE_RATE, BLOCK_FRAMES);
    let s = solo.add_source(2048);
    solo.write_source(s, &tone_a, Some(1)).unwrap();

    for _ in 0..3 {
        let mut duo_out = vec![0i32; BLOCK_FRAMES * 2];
        let mut solo_out = vec![0i32; BLOCK_FRAMES * 2];
        duo.process(&mut duo_out, BLOCK_FRAMES, 2).unwrap();
        solo.process(&mut solo_out, BLOCK_FRAMES, 2).unwrap();
        assert_eq!(duo_out, solo_out);
    }
}

#[test]
fn gain_scales_single_source_exactly() {
    // One source at half gain: each output sample is the input scaled by the
    // Q20 gain, shifted by the one-frame interpolation seed.
    let gain: i64 = 524_288; // 0.5 in Q20
    let input: Vec<i32> = (0..64).flat_map(|n| [(n as i32) * 1000 - 30_000, (n as i32) * -500]).collect();

    let mut mixer = Mixer::new(SAMPLE_RATE, BLOCK_FRAMES);
    let h = mixer.add_source(1024);
    mixer.set_gain(h, gain).unwrap();
    mixer.write_source(h, &input, Some(1)).unwrap();

    let mut out = vec![0i32; BLOCK_FRAMES * 2];
    mixer.process(&mut out, BLOCK_FRAMES, 2).unwrap();

    let scale = |s: i32| -> i32 {
        if s >= 0 {
            ((s as i64 * gain) >> 20) as i32
        } else {
            -(((-(s as i64)) * gain) >> 20) as i32
        }
    };
    // Frame 0 carries the interpolation seed (silence); frame k then holds
    // input frame k-1.
    assert_eq!(out[0], 0);
    assert_eq!(out[1], 0);
    for k in 1..64 {
        assert_eq!(out[2 * k], scale(input[2 * (k - 1)]), "left sample {k}");
        assert_eq!(out[2 * k + 1], scale(input[2 * (k - 1) + 1]), "right sample {k}");
    }
}

#[test]
fn drift_feedback_converges_toward_ratio() {
    // One hundred feedback pairs at a 1.01 rate ratio: the smoothed ratio
    // climbs most of the way and the reported drift lands mid-band.
    let mut mixer = Mixer::new(SAMPLE_RATE, BLOCK_FRAMES);
    let h = mixer.add_source(1024);
    let mut device_ts = 0u64;
    let mut source_ts = 0u64;
    for _ in 0..=100 {
        mixer.submit_clock_feedback(h, device_ts, source_ts).unwrap();
        device_ts += 1_000_000;
        source_ts += 1_010_000;
    }
    let ratio = mixer.sources[0].clock.smoothed_ratio;
    let one = 1u64 << 32;
    let low = one + (one as f64 * 0.005) as u64;
    let high = one + (one as f64 * 0.0100001) as u64;
    assert!(ratio >= low, "ratio {ratio} below {low}");
    assert!(ratio <= high, "ratio {ratio} above {high}");

    let drift = mixer.status().sources[0].drift_ppm;
    assert!((5000..=10000).contains(&drift), "drift {drift} out of band");
}

#[test]
fn process_rejects_unsupported_channels() {
    let mut mixer = Mixer::new(SAMPLE_RATE, BLOCK_FRAMES);
    let h = mixer.add_source(1024);
    mixer.write_source(h, &vec![1000, -1000], Some(1)).unwrap();
    let mut out = vec![7i32; 8];
    let r = mixer.process(&mut out, 4, 1);
    assert_eq!(r, Err(MixerError::UnsupportedChannels(1)));
    assert_eq!(out, vec![7i32; 8]);
}

#[test]
fn process_zero_frames_is_a_no_op() {
    let mut mixer = Mixer::new(SAMPLE_RATE, BLOCK_FRAMES);
    let _ = mixer.add_source(1024);
    let mut out = vec![9i32; 8];
    let r = mixer.process(&mut out, 0, 2);
    assert_eq!(r, Ok(0));
    assert_eq!(out, vec![9i32; 8]);
}

#[test]
fn drained_source_leaves_output_untouched() {
    // A source with an empty ring and a silent delay line adds nothing, and
    // its gain and mute settings survive the call.
    let ring = SharedRingBuffer::new_local(256, 2);
    let mut src = Source::new(SourceHandle::new(1), ring, 64);
    let mut out: Vec<i32> = (0..128).map(|k| k * 3 - 100).collect();
    let expected = out.clone();
    src.mix_into(&mut out, 64);
    assert_eq!(out, expected);
    assert_eq!(src.gain, 1_048_576);
    assert!(!src.mute);
}

#[test]
fn unknown_source_errors_are_reported() {
    let mut mixer = Mixer::new(SAMPLE_RATE, BLOCK_FRAMES);
    let bogus = SourceHandle::new(77);
    assert_eq!(mixer.set_gain(bogus, 1), Err(MixerError::UnknownSource(77)));
    assert_eq!(mixer.set_mute(bogus, true), Err(MixerError::UnknownSource(77)));
    assert_eq!(mixer.set_latency(bogus, 5), Err(MixerError::UnknownSource(77)));
    assert_eq!(
        mixer.submit_clock_feedback(bogus, 1, 1),
        Err(MixerError::UnknownSource(77))
    );
    assert_eq!(
        mixer.write_source(bogus, &vec![0, 0], None),
        Err(MixerError::UnknownSource(77))
    );
}

#[test]
fn status_reports_rates_and_fill() {
    let mut mixer = Mixer::new(SAMPLE_RATE, BLOCK_FRAMES);
    let h = mixer.add_source(1000);
    // 250 frames queued out of 1000.
    let data = vec![0i32; 500];
    mixer.write_source(h, &data, Some(1)).unwrap();
    let st = mixer.status();
    assert_eq!(st.sample_rate, SAMPLE_RATE);
    assert_eq!(st.buffer_frames, BLOCK_FRAMES);
    // 256 frames at 48 kHz last 5333 microseconds.
    assert_eq!(st.latency_micros, 5333);
    assert_eq!(st.sources.len(), 1);
    assert_eq!(st.sources[0].buffer_fill_permille, 250);
    assert_eq!(st.sources[0].gain_linear, 1_048_576);
    assert!(!st.sources[0].muted);
    assert_eq!(st.sources[0].drift_ppm, 0);
}
