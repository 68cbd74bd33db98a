use chord_synth::chord::{Chord, UnknownNoteError};
use chord_synth::container::{declared_sizes, render_container, ContainerWriter, DeclaredSizes, HEADER_LEN};
use chord_synth::fan_in::{ChannelEvent, FanIn, FanInAction, FanInPhase};
use chord_synth::note::note_key;
use chord_synth::pcm::{encode_sample, max_amplitude, quantize, InvalidParams, RenderParams};

fn params(bits: u16, rate: u32, duration: u8) -> RenderParams {
    RenderParams::new(bits, rate, duration).unwrap()
}

#[test]
fn note_keys_of_naturals() {
    assert_eq!(note_key("C4"), Some(60));
    assert_eq!(note_key("A4"), Some(69));
    assert_eq!(note_key("A0"), Some(21));
    assert_eq!(note_key("C8"), Some(108));
    assert_eq!(note_key("B3"), Some(59));
}

#[test]
fn enharmonic_spellings_share_a_key() {
    assert_eq!(note_key("A#0"), note_key("Bb0"));
    assert_eq!(note_key("A#0"), Some(22));
    assert_eq!(note_key("C#4"), note_key("Db4"));
    assert_eq!(note_key("F#3"), note_key("Gb3"));
    assert_eq!(note_key("E#4"), note_key("F4"));
    assert_eq!(note_key("B#3"), note_key("C4"));
    assert_eq!(note_key("Cb4"), note_key("B3"));
}

#[test]
fn malformed_note_tokens() {
    assert_eq!(note_key(""), None);
    assert_eq!(note_key("A"), None);
    assert_eq!(note_key("H4"), None);
    assert_eq!(note_key("a4"), None);
    assert_eq!(note_key("Ax4"), None);
    assert_eq!(note_key("A10"), None);
    assert_eq!(note_key("A#"), None);
    assert_eq!(note_key("4A"), None);
}

#[test]
fn chord_parses_in_order() {
    let c = Chord::parse("F4 A4 C5").unwrap();
    assert_eq!(c.voices(), &vec![65u8, 69, 72]);
    assert_eq!(c.voice_count(), 3);
    let c = Chord::parse("C4 E4 F4 A4").unwrap();
    assert_eq!(c.voices(), &vec![60u8, 64, 65, 69]);
    let c = Chord::parse("Bb3").unwrap();
    assert_eq!(c.voices(), &vec![58u8]);
}

#[test]
fn chord_with_bad_or_empty_token_fails() {
    assert_eq!(Chord::parse("C4 X4 E4").err(), Some(UnknownNoteError { token_index: 1 }));
    assert_eq!(Chord::parse("C4  E4").err(), Some(UnknownNoteError { token_index: 1 }));
    assert_eq!(Chord::parse("").err(), Some(UnknownNoteError { token_index: 0 }));
    assert_eq!(Chord::parse("C4 E4 ").err(), Some(UnknownNoteError { token_index: 2 }));
    assert_eq!(Chord::parse(" C4").err(), Some(UnknownNoteError { token_index: 0 }));
    assert_eq!(Chord::parse("Q1 X4").err(), Some(UnknownNoteError { token_index: 0 }));
}

#[test]
fn max_amplitude_per_width() {
    assert_eq!(max_amplitude(8), 127);
    assert_eq!(max_amplitude(16), 32767);
    assert_eq!(max_amplitude(24), 8388607);
    assert_eq!(max_amplitude(32), 2147483647);
}

#[test]
fn quantize_clamps_to_range() {
    assert_eq!(quantize(5, 16), 5);
    assert_eq!(quantize(-5, 16), -5);
    assert_eq!(quantize(32767, 16), 32767);
    assert_eq!(quantize(40000, 16), 32767);
    assert_eq!(quantize(-40000, 16), -32767);
    assert_eq!(quantize(-32768, 16), -32767);
    assert_eq!(quantize(200, 8), 127);
    assert_eq!(quantize(i64::MIN, 32), -2147483647);
}

#[test]
fn samples_are_little_endian_twos_complement() {
    let mut out = vec![9u8];
    encode_sample(&mut out, 258, 16);
    assert_eq!(out, vec![9u8, 2, 1]);
    let mut out = Vec::new();
    encode_sample(&mut out, -1, 16);
    assert_eq!(out, vec![0xffu8, 0xff]);
    let mut out = Vec::new();
    encode_sample(&mut out, -2, 24);
    assert_eq!(out, vec![0xfeu8, 0xff, 0xff]);
    let mut out = Vec::new();
    encode_sample(&mut out, 70000, 16);
    assert_eq!(out, vec![0xffu8, 0x7f]);
    let mut out = Vec::new();
    encode_sample(&mut out, -70000, 16);
    assert_eq!(out, vec![0x01u8, 0x80]);
    let mut out = Vec::new();
    encode_sample(&mut out, 0x12345678, 32);
    assert_eq!(out, vec![0x78u8, 0x56, 0x34, 0x12]);
    let mut out = Vec::new();
    encode_sample(&mut out, -3, 8);
    assert_eq!(out, vec![0xfdu8]);
}

#[test]
fn render_params_are_checked() {
    assert_eq!(RenderParams::new(12, 44100, 2), Err(InvalidParams::BitsPerSample));
    assert_eq!(RenderParams::new(0, 44100, 2), Err(InvalidParams::BitsPerSample));
    assert_eq!(RenderParams::new(40, 44100, 2), Err(InvalidParams::BitsPerSample));
    assert_eq!(RenderParams::new(16, 0, 2), Err(InvalidParams::SampleRate));
    assert_eq!(RenderParams::new(32, 1 << 30, 2), Err(InvalidParams::SampleRate));
    assert_eq!(RenderParams::new(16, 44100, 0), Err(InvalidParams::Duration));
    let p = params(16, 44100, 2);
    assert_eq!(p.bits_per_sample(), 16);
    assert_eq!(p.sample_rate(), 44100);
    assert_eq!(p.duration(), 2);
    assert_eq!(p.sample_count(), 88200);
    assert_eq!(p.byte_rate(), 88200);
    assert_eq!(p.block_align(), 2);
}

#[test]
fn header_layout_is_byte_exact() {
    let w = ContainerWriter::begin(params(16, 44100, 1));
    assert_eq!(w.len(), HEADER_LEN);
    let file = w.finish();
    let expected: Vec<u8> = vec![
        b'R', b'I', b'F', b'F', 36, 0, 0, 0, b'W', b'A', b'V', b'E', b'f', b'm', b't', b' ', 16, 0, 0, 0, 1, 0,
        1, 0, 0x44, 0xac, 0, 0, 0x88, 0x58, 0x01, 0, 2, 0, 16, 0, b'd', b'a', b't', b'a', 0, 0, 0, 0,
    ];
    assert_eq!(file, expected);
}

#[test]
fn placeholders_stand_until_finish() {
    let mut w = ContainerWriter::begin(params(16, 8000, 1));
    w.push_sample(1);
    assert_eq!(w.len(), HEADER_LEN + 2);
    assert!(w.has_room_for(1000));
    assert!(!w.has_room_for(u64::MAX));
    assert_eq!(w.params().sample_rate(), 8000);
}

#[test]
fn three_voice_chord_two_seconds() {
    let p = params(16, 44100, 2);
    let chord = Chord::parse("F4 A4 C5").unwrap();
    let freqs: Vec<f64> = chord.voices().iter().map(|k| 440.0 * 2f64.powf((*k as f64 - 69.0) / 12.0)).collect();
    let max = max_amplitude(16) as f64;
    let count = p.sample_count() as usize;
    let raws: Vec<i64> = (0..count)
        .map(|i| {
            let sum: f64 = freqs
                .iter()
                .map(|f| (2.0 * std::f64::consts::PI * i as f64 * f / 44100.0).sin())
                .sum();
            (sum * max * 0.5 / freqs.len() as f64) as i64
        })
        .collect();
    assert!(raws.iter().all(|r| r.abs() <= 32767));
    let file = render_container(p, &raws);
    assert_eq!(file.len(), HEADER_LEN + 44100 * 2 * 2);
    let sizes = declared_sizes(&file).unwrap();
    assert_eq!(sizes.data, 44100 * 2 * 2);
    assert_eq!(sizes.total, 44100 * 2 * 2 + 36);
}

#[test]
fn sizes_round_trip_even_body() {
    let raws: Vec<i64> = vec![1, -1, 300, -300, 0];
    let file = render_container(params(16, 22050, 1), &raws);
    assert_eq!(file.len(), 54);
    assert_eq!(declared_sizes(&file), Some(DeclaredSizes { total: 46, data: 10 }));
    assert_eq!(&file[44..46], &[1u8, 0]);
    assert_eq!(&file[46..48], &[0xffu8, 0xff]);
}

#[test]
fn odd_body_gets_one_pad_byte() {
    let raws: Vec<i64> = vec![1, -1, 127];
    let file = render_container(params(8, 8000, 1), &raws);
    assert_eq!(file.len(), HEADER_LEN + 3 + 1);
    assert_eq!(*file.last().unwrap(), 0);
    assert_eq!(&file[44..47], &[1u8, 0xff, 127]);
    let sizes = declared_sizes(&file).unwrap();
    assert_eq!(sizes.data, 3);
    assert_eq!(sizes.total, 40);
    assert_eq!(sizes.total as usize, file.len() - 8);
}

#[test]
fn rendering_twice_gives_identical_bytes() {
    let raws: Vec<i64> = (0..1000).map(|i| (i * 37 % 5000) as i64 - 2500).collect();
    let a = render_container(params(24, 48000, 1), &raws);
    let b = render_container(params(24, 48000, 1), &raws);
    assert_eq!(a, b);
}

#[test]
fn declared_sizes_of_short_input() {
    assert_eq!(declared_sizes(&vec![0u8; 43]), None);
    assert!(declared_sizes(&vec![0u8; 44]).is_some());
}

fn drive(fan: &mut FanIn, events: &[ChannelEvent]) -> (usize, Vec<FanInAction>) {
    let mut emitted = 0;
    let mut actions = Vec::new();
    for ev in events {
        let a = fan.step(*ev);
        if a == FanInAction::Emit {
            emitted += 1;
        }
        actions.push(a);
    }
    (emitted, actions)
}

#[test]
fn fan_in_emits_one_sample_per_tick() {
    let mut fan = FanIn::new(3, 2);
    assert_eq!(fan.awaiting_voice(), 0);
    let mut events = vec![ChannelEvent::Value; 6];
    events.extend(vec![ChannelEvent::Closed; 3]);
    let (emitted, actions) = drive(&mut fan, &events);
    assert_eq!(emitted, 2);
    assert_eq!(
        actions,
        vec![
            FanInAction::Await,
            FanInAction::Await,
            FanInAction::Emit,
            FanInAction::Await,
            FanInAction::Await,
            FanInAction::Emit,
            FanInAction::Await,
            FanInAction::Await,
            FanInAction::Finished,
        ]
    );
    assert_eq!(fan.phase(), FanInPhase::Finished);
    assert_eq!(fan.ticks_done(), 2);
}

#[test]
fn fan_in_rejects_early_close() {
    let mut fan = FanIn::new(2, 2);
    let (_, actions) = drive(&mut fan, &[ChannelEvent::Value, ChannelEvent::Value, ChannelEvent::Value, ChannelEvent::Closed]);
    assert_eq!(actions.last(), Some(&FanInAction::Violation));
    assert_eq!(fan.phase(), FanInPhase::Failed);
}

#[test]
fn fan_in_rejects_extra_value() {
    let mut fan = FanIn::new(2, 1);
    let (_, actions) = drive(&mut fan, &[ChannelEvent::Value, ChannelEvent::Value, ChannelEvent::Closed, ChannelEvent::Value]);
    assert_eq!(actions, vec![FanInAction::Await, FanInAction::Emit, FanInAction::Await, FanInAction::Violation]);
    assert_eq!(fan.phase(), FanInPhase::Failed);
}

#[test]
fn fan_in_without_ticks_only_drains() {
    let mut fan = FanIn::new(1, 0);
    assert_eq!(fan.phase(), FanInPhase::Draining);
    assert_eq!(fan.step(ChannelEvent::Closed), FanInAction::Finished);
}
