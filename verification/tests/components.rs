use device_kit::api::{ensure_capacity, set_mute};
use device_kit::clock::{ClockState, CLOCK_RATIO_MAX};
use device_kit::ring::RingBufferHeader;
use device_kit::console::{ConsoleAction, ConsoleState, Key, LogBuffer, Mode};
use device_kit::delay::DelayLine;
use device_kit::latency::LatencyProbe;
use device_kit::mixer::Mixer;
use device_kit::ring::SharedRingBuffer;
use device_kit::sample::Frame;
use device_kit::time::host_time_to_ns;

fn frames(samples: &[i32]) -> Vec<i32> {
    samples.to_vec()
}

#[test]
fn ring_push_then_pop_returns_frames() {
    // Push-then-pop identity on a ring with room for everything.
    let mut ring = SharedRingBuffer::new_local(8, 2);
    let input = frames(&[1, 2, 3, 4, 5, 6]);
    let written = ring.push(&input, Some(42));
    assert_eq!(written, 3);
    assert_eq!(ring.available_read(), 3);
    assert_eq!(ring.last_timestamp_ns(), 42);

    let mut out = vec![0i32; 6];
    let read = ring.pop(&mut out);
    assert_eq!(read, 3);
    assert_eq!(out, input);
    assert_eq!(ring.available_read(), 0);
}

#[test]
fn ring_available_never_exceeds_capacity() {
    let mut ring = SharedRingBuffer::new_local(4, 2);
    let input = frames(&[9; 20]);
    let written = ring.push(&input, None);
    assert_eq!(written, 4);
    assert_eq!(ring.available_read(), 4);
    assert!(ring.available_read() <= ring.capacity_frames());
}

#[test]
fn ring_conservation_over_mixed_traffic() {
    // Accepted frames equal popped frames plus what is still queued.
    let mut ring = SharedRingBuffer::new_local(16, 2);
    let mut accepted = 0usize;
    let mut popped = 0usize;
    for round in 0..10 {
        let burst = frames(&vec![round as i32; 2 * (round % 5 + 1)]);
        accepted += ring.push(&burst, Some(round as u64));
        let mut out = vec![0i32; 2 * (round % 3)];
        popped += ring.pop(&mut out);
    }
    assert_eq!(accepted, popped + ring.available_read());
}

#[test]
fn full_ring_rejects_push_and_keeps_state() {
    let mut ring = SharedRingBuffer::new_local(2, 2);
    assert_eq!(ring.push(&frames(&[1, 2, 3, 4]), Some(7)), 2);
    let written = ring.push(&frames(&[5, 6]), Some(9));
    assert_eq!(written, 0);
    assert_eq!(ring.available_read(), 2);
    // The rejected push left even the timestamp untouched.
    assert_eq!(ring.last_timestamp_ns(), 7);
    let mut out = vec![0i32; 4];
    assert_eq!(ring.pop(&mut out), 2);
    assert_eq!(out, frames(&[1, 2, 3, 4]));
}

#[test]
fn overrun_drop_oldest_keeps_most_recent() {
    // Push two capacities' worth with the drop-oldest policy: the ring holds
    // the most recent half.
    let capacity = 1024usize;
    let mut ring = SharedRingBuffer::new_local(capacity, 2);
    let total = 2048usize;
    let input: Vec<i32> = (0..total as i32 * 2).collect();
    ring.push_drop_oldest(&input, Some(1));
    assert!(ring.available_read() <= capacity);
    assert_eq!(ring.available_read(), capacity);

    let mut out = vec![0i32; capacity * 2];
    let read = ring.pop(&mut out);
    assert_eq!(read, capacity);
    assert_eq!(&out[..], &input[capacity * 2..]);
}

#[test]
fn ring_discard_advances_read_side() {
    let mut ring = SharedRingBuffer::new_local(8, 2);
    ring.push(&frames(&[1, 2, 3, 4, 5, 6, 7, 8]), None);
    assert_eq!(ring.discard(3), 3);
    assert_eq!(ring.available_read(), 1);
    let mut out = vec![0i32; 2];
    assert_eq!(ring.pop(&mut out), 1);
    assert_eq!(out, frames(&[7, 8]));
    assert_eq!(ring.discard(5), 0);
}

#[test]
fn delay_line_imposes_target_lag() {
    let mut delay = DelayLine::new(16);
    delay.set_target(2);
    let f = |v: i32| Frame { left: v, right: -v };
    // The first two outputs are silence, then inputs emerge two frames late.
    assert_eq!(delay.process_frame(f(10)), Frame::silence());
    assert_eq!(delay.process_frame(f(20)), Frame::silence());
    assert_eq!(delay.process_frame(f(30)), f(10));
    assert_eq!(delay.process_frame(f(40)), f(20));
}

#[test]
fn delay_line_drop_frames_shortens_queue() {
    let mut delay = DelayLine::new(16);
    delay.set_target(3);
    let f = |v: i32| Frame { left: v, right: v };
    for v in 0..3 {
        delay.process_frame(f(v));
    }
    assert_eq!(delay.drop_frames(2), 2);
    assert_eq!(delay.drop_frames(5), 1);
    assert_eq!(delay.drop_frames(1), 0);
}

#[test]
fn delay_target_clamps_to_capacity() {
    let mut delay = DelayLine::new(8);
    delay.set_target(1_000_000);
    assert_eq!(delay.target_delay, 31);  // capacity is raised to the minimum of 32
}

#[test]
fn clock_feedback_needs_history_and_motion() {
    let mut clock = ClockState::new();
    // The first pair only records history.
    assert_eq!(clock.submit_feedback(100, 100), None);
    // Non-advancing timestamps are recorded but folded in no further.
    assert_eq!(clock.submit_feedback(100, 100), None);
    // An advancing pair yields a smoothed ratio.
    let smoothed = clock.submit_feedback(1_000_100, 1_010_100).unwrap();
    let one = 1u64 << 32;
    assert!(smoothed > one);
    assert!(smoothed < one + one / 50);
    assert!(clock.drift_ppm() > 0);
}

#[test]
fn clock_ratio_is_clamped_to_band() {
    let mut clock = ClockState::new();
    clock.submit_feedback(0, 0);
    // A wild 2x ratio is clamped to the band edge before smoothing.
    for k in 1..=400u64 {
        clock.submit_feedback(k * 1_000, k * 2_000);
    }
    assert!(clock.smoothed_ratio <= CLOCK_RATIO_MAX);
    // After many steps the ratio has climbed close to the upper clamp.
    assert!(clock.smoothed_ratio > CLOCK_RATIO_MAX - 2000);
}

#[test]
fn probe_measures_inserted_offset() {
    let probe = LatencyProbe::new(48_000, 440, 480);
    let mut tone = vec![Frame::silence(); 2000];
    probe.emit_sine(440, &mut tone);
    // Prepend 37 frames of silence to emulate latency.
    let mut recorded = vec![Frame::silence(); 37];
    recorded.extend_from_slice(&tone[..1500]);
    let report = probe.measure(&recorded);
    assert_eq!(report.offset_frames, 37);
    assert!(report.correlation > (1i64 << 20) * 9 / 10);
    assert_eq!(report.offset_micros, 37 * 1_000_000 / 48_000);
}

#[test]
fn anti_correlated_recording_scores_zero() {
    // A short recording that is the negated tone has a negative raw quotient;
    // the reported score is clamped to the promised non-negative range.
    let probe = LatencyProbe::new(48_000, 440, 480);
    let mut tone = vec![Frame::silence(); 480];
    probe.emit_sine(440, &mut tone);
    let negated: Vec<Frame> = tone
        .iter()
        .take(240)
        .map(|f| Frame { left: -f.left, right: -f.right })
        .collect();
    let report = probe.measure(&negated);
    assert_eq!(report.offset_frames, 0);
    assert_eq!(report.correlation, 0);

    // The same slice unnegated scores well above zero.
    let aligned: Vec<Frame> = tone.iter().take(240).copied().collect();
    let report = probe.measure(&aligned);
    assert!(report.correlation > (1i64 << 20) / 2);
}

#[test]
fn probe_zero_cases_report_nothing() {
    let probe = LatencyProbe::new(48_000, 440, 480);
    let report = probe.measure(&Vec::new());
    assert_eq!(report.offset_frames, 0);
    assert_eq!(report.correlation, 0);

    let empty_probe = LatencyProbe::new(48_000, 440, 0);
    let report = empty_probe.measure(&vec![Frame::silence(); 16]);
    assert_eq!(report.offset_frames, 0);
    assert_eq!(report.correlation, 0);
}

#[test]
fn emit_sine_fills_whole_buffer() {
    let probe = LatencyProbe::new(48_000, 440, 480);
    let mut out = vec![Frame::silence(); 96];
    // Frequency zero falls back to the probe's default tone.
    assert_eq!(probe.emit_sine(0, &mut out), 96);
    assert!(out.iter().any(|f| f.left != 0));
    // Both channels carry the same value.
    assert!(out.iter().all(|f| f.left == f.right));
    // Half amplitude: no sample exceeds half of full scale.
    assert!(out.iter().all(|f| f.left.abs() <= 1 << 19));
}

#[test]
fn set_latency_negative_discards_queued_audio() {
    // A negative latency setting drains queued frames before mixing.
    let mut mixer = Mixer::new(48_000, 64);
    let h = mixer.add_source(1024);
    let input: Vec<i32> = (0..512).collect();
    mixer.write_source(h, &input, Some(1)).unwrap();
    mixer.set_latency(h, -100).unwrap();
    let mut out = vec![0i32; 128];
    mixer.process(&mut out, 64, 2).unwrap();
    // 100 frames were discarded, then 65 pulled for the block: frame 1 of the
    // output is ring frame 100.
    assert_eq!(out[2], input[200]);
    assert_eq!(out[3], input[201]);
}

#[test]
fn api_set_mute_reports_existence() {
    let mut mixer = Mixer::new(48_000, 64);
    let h = mixer.add_source(64);
    assert!(set_mute(&mut mixer, h.id, true));
    assert!(mixer.sources[0].mute);
    assert!(!set_mute(&mut mixer, h.id + 1, true));
}

#[test]
fn ensure_capacity_validates_requests() {
    assert_eq!(ensure_capacity(Some(0)), None);
    assert_eq!(ensure_capacity(Some(512)), Some(512));
    assert_eq!(ensure_capacity(None), Some(4096));
}

#[test]
fn console_keys_drive_selection_and_gain_entry() {
    let mut console = ConsoleState::new();
    assert_eq!(console.handle_key(Key::Down, 3), ConsoleAction::Stay);
    assert_eq!(console.selected, 1);
    assert_eq!(console.handle_key(Key::Up, 3), ConsoleAction::Stay);
    assert_eq!(console.selected, 0);
    assert_eq!(console.handle_key(Key::Up, 3), ConsoleAction::Stay);
    assert_eq!(console.selected, 0);
    assert_eq!(console.handle_key(Key::Char('m'), 3), ConsoleAction::ToggleMute(0));
    assert_eq!(console.handle_key(Key::Char('g'), 3), ConsoleAction::BeginGainEdit(0));
    assert_eq!(console.mode, Mode::GainInput);
    console.set_gain_buffer(vec![b'1']);
    assert_eq!(console.handle_key(Key::Char('.'), 3), ConsoleAction::Stay);
    assert_eq!(console.handle_key(Key::Char('5'), 3), ConsoleAction::Stay);
    assert_eq!(console.handle_key(Key::Char('x'), 3), ConsoleAction::Stay);
    assert_eq!(console.gain_buffer, vec![b'1', b'.', b'5']);
    assert_eq!(console.handle_key(Key::Backspace, 3), ConsoleAction::Stay);
    assert_eq!(console.gain_buffer, vec![b'1', b'.']);
    assert_eq!(console.handle_key(Key::Enter, 3), ConsoleAction::CommitGain(0));
    assert_eq!(console.mode, Mode::Normal);
    assert_eq!(console.handle_key(Key::Char('q'), 3), ConsoleAction::Quit);
}

#[test]
fn console_gain_edit_escape_clears_buffer() {
    let mut console = ConsoleState::new();
    assert_eq!(console.handle_key(Key::Char('g'), 1), ConsoleAction::BeginGainEdit(0));
    console.set_gain_buffer(vec![b'3', b'2']);
    assert_eq!(console.handle_key(Key::Esc, 1), ConsoleAction::Stay);
    assert_eq!(console.mode, Mode::Normal);
    assert!(console.gain_buffer.is_empty());
    // With no sources the mute and gain keys do nothing.
    assert_eq!(console.handle_key(Key::Char('m'), 0), ConsoleAction::Stay);
    assert_eq!(console.handle_key(Key::Char('g'), 0), ConsoleAction::Stay);
}

#[test]
fn console_selection_clamps_to_table() {
    let mut console = ConsoleState::new();
    for _ in 0..5 {
        console.handle_key(Key::Down, 6);
    }
    assert_eq!(console.selected, 5);
    console.clamp_selection(2);
    assert_eq!(console.selected, 1);
    console.clamp_selection(0);
    assert_eq!(console.selected, 0);
}

#[test]
fn log_buffer_drops_oldest_beyond_capacity() {
    let mut log = LogBuffer::new();
    assert_eq!(log.pop_log(), None);
    for n in 0..300 {
        log.push_log(format!("line {n}"));
    }
    assert_eq!(log.lines.len(), 256);
    // The first 44 lines fell off the front.
    assert_eq!(log.pop_log(), Some("line 44".to_string()));
    assert_eq!(log.pop_log(), Some("line 45".to_string()));
}

#[test]
fn host_time_passes_through_in_nanoseconds() {
    assert_eq!(host_time_to_ns(0), 0);
    assert_eq!(host_time_to_ns(123_456_789), 123_456_789);
}

#[test]
fn ring_header_reports_geometry() {
    let header = RingBufferHeader::new(512, 2);
    assert_eq!(header.capacity_frames(), 512);
    assert_eq!(header.channels(), 2);
}

#[test]
fn header_bytes_roundtrip() {
    // The peer-visible layout: little-endian fields at their fixed offsets,
    // and decoding recovers the header.
    let mut ring = SharedRingBuffer::new_local(4, 2);
    ring.push(&frames(&[1, 2]), Some(99));
    let bytes = device_kit::ring::header_to_bytes(&ring.header);
    assert_eq!(bytes.len(), 64);
    assert_eq!(&bytes[0..4], &[4, 0, 0, 0]);
    assert_eq!(bytes[4], 2);
    assert_eq!(bytes[16], 1);
    assert_eq!(bytes[24], 0);
    assert_eq!(bytes[32], 99);
    assert!(bytes[40..].iter().all(|b| *b == 0));

    let header = device_kit::ring::header_from_bytes(&bytes);
    assert_eq!(header.capacity_frames(), 4);
    assert_eq!(header.channels(), 2);
    assert_eq!(header.write_index, 1);
    assert_eq!(header.read_index, 0);
    assert_eq!(header.last_timestamp_ns, 99);
}
