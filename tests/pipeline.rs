use nspeech::config::{get_preferred_config, RateRange};
use nspeech::downmix::downmix;
use nspeech::resample::resample_simple;
use nspeech::trim::{trim_silence, TRIM_PADDING};
use nspeech::worker::{finish_clip, Action, CaptureWorker, Command, Event, Phase, SILENCE_THRESHOLD};
use nspeech::{FULL_SCALE, WHISPER_SAMPLE_RATE};

#[test]
fn resample_same_rate_is_identity() {
    let input = vec![5, -7, 123_456, 0, -1_000_000];
    assert_eq!(resample_simple(&input, 44100, 44100), input);
    assert_eq!(resample_simple(&[], 16000, 16000), Vec::<i32>::new());
}

#[test]
fn resample_downsamples_by_interpolation() {
    // position of output i is 4i/3: 0, 1 + 1/3, 2 + 2/3
    assert_eq!(resample_simple(&[0, 10, 20, 30], 4, 3), vec![0, 13, 26]);
}

#[test]
fn resample_upsamples_and_clamps_last_index() {
    assert_eq!(resample_simple(&[0, 9], 1, 3), vec![0, 3, 6, 9, 9, 9]);
}

#[test]
fn resample_rounds_down() {
    assert_eq!(resample_simple(&[-1, 0], 1, 2), vec![-1, -1, 0, 0]);
}

#[test]
fn resample_length_is_floor_of_scaled_length() {
    let input = vec![1; 1001];
    assert_eq!(resample_simple(&input, 48000, 16000).len(), 333);
    assert_eq!(resample_simple(&input, 44100, 16000).len(), 363);
    assert_eq!(resample_simple(&input, 8000, 16000).len(), 2002);
    assert_eq!(resample_simple(&input, 16000, 0).len(), 0);
}

#[test]
fn resample_values_lie_between_neighbors() {
    let input: Vec<i32> = (0..500).map(|i| ((i * 7919) % 2001) - 1000).collect();
    let out = resample_simple(&input, 44100, 16000);
    assert_eq!(out.len(), 500 * 16000 / 44100);
    for (i, &v) in out.iter().enumerate() {
        let pos = i as u64 * 44100;
        let lo = (pos / 16000) as usize;
        let hi = (lo + 1).min(input.len() - 1);
        let (a, b) = (input[lo].min(input[hi]), input[lo].max(input[hi]));
        assert!(a <= v && v <= b);
    }
}

#[test]
fn resample_one_second_tone_from_48k() {
    let amplitude = FULL_SCALE / 2;
    let input = vec![amplitude; 48000];
    let out = resample_simple(&input, 48000, WHISPER_SAMPLE_RATE);
    assert_eq!(out.len(), 16000);
    assert!(out.iter().all(|&v| v == amplitude));
}

#[test]
fn trim_all_zero_is_empty() {
    for n in [0usize, 1, 2, 100, 10_000] {
        let mut s = vec![0; n];
        trim_silence(&mut s, SILENCE_THRESHOLD);
        assert!(s.is_empty());
    }
}

#[test]
fn trim_quiet_noise_is_empty() {
    let mut s = vec![SILENCE_THRESHOLD, -SILENCE_THRESHOLD, 3, -5];
    trim_silence(&mut s, SILENCE_THRESHOLD);
    assert!(s.is_empty());
}

#[test]
fn trim_single_loud_sample_is_empty() {
    let mut s = vec![0; 10_000];
    s[4000] = FULL_SCALE;
    trim_silence(&mut s, SILENCE_THRESHOLD);
    assert!(s.is_empty());
}

#[test]
fn trim_keeps_padding_around_loud_span() {
    let mut s = vec![0; 20_000];
    s[5000] = 50_000;
    s[6000] = -50_000;
    let expected = s[5000 - TRIM_PADDING..6000 + TRIM_PADDING].to_vec();
    trim_silence(&mut s, SILENCE_THRESHOLD);
    assert_eq!(s.len(), 7400);
    assert_eq!(s, expected);
    assert_eq!(s[TRIM_PADDING], 50_000);
}

#[test]
fn trim_clamps_padding_to_clip() {
    let mut s = vec![0; 1000];
    s[10] = -20_000;
    s[990] = 20_000;
    let expected = s.clone();
    trim_silence(&mut s, SILENCE_THRESHOLD);
    assert_eq!(s, expected);
    let mut t = vec![0; 5000];
    t[100] = 20_000;
    t[4990] = 20_000;
    trim_silence(&mut t, SILENCE_THRESHOLD);
    assert_eq!(t.len(), 5000);
}

#[test]
fn trim_threshold_is_strict() {
    let mut s = vec![SILENCE_THRESHOLD + 1, 0, 0, SILENCE_THRESHOLD];
    trim_silence(&mut s, SILENCE_THRESHOLD);
    assert!(s.is_empty());
    let mut t = vec![SILENCE_THRESHOLD + 1, 0, 0, -SILENCE_THRESHOLD - 1];
    trim_silence(&mut t, SILENCE_THRESHOLD);
    assert_eq!(t, vec![SILENCE_THRESHOLD + 1, 0, 0, -SILENCE_THRESHOLD - 1]);
}

#[test]
fn downmix_stereo_takes_frame_mean() {
    assert_eq!(downmix(&[2, 4, -3, -4, 7, 7], 2), vec![3, -4, 7]);
}

#[test]
fn downmix_mono_is_unchanged() {
    assert_eq!(downmix(&[1, -2, 3], 1), vec![1, -2, 3]);
    assert_eq!(downmix(&[], 2), Vec::<i32>::new());
}

#[test]
fn downmix_partial_frame_divides_by_channel_count() {
    assert_eq!(downmix(&[3, 3, 3, 9, 3], 3), vec![3, 4]);
}

#[test]
fn downmix_extremes_do_not_overflow() {
    assert_eq!(downmix(&[i32::MAX, i32::MAX, i32::MIN, i32::MIN], 2), vec![i32::MAX, i32::MIN]);
}

#[test]
fn preferred_config_is_first_covering_range() {
    let ranges = vec![
        RateRange { min_sample_rate: 44100, max_sample_rate: 48000 },
        RateRange { min_sample_rate: 8000, max_sample_rate: 16000 },
        RateRange { min_sample_rate: 16000, max_sample_rate: 96000 },
    ];
    assert_eq!(get_preferred_config(&ranges, WHISPER_SAMPLE_RATE), Some(1));
    assert_eq!(get_preferred_config(&ranges, 96000), Some(2));
    assert_eq!(get_preferred_config(&ranges[..1], WHISPER_SAMPLE_RATE), None);
    assert_eq!(get_preferred_config(&[], WHISPER_SAMPLE_RATE), None);
}

#[test]
fn stop_before_start_replies_empty() {
    let mut w = CaptureWorker::new(48000);
    assert_eq!(w.step(Event::Command(Command::Stop)), Action::Reply(Vec::new()));
    assert_eq!(w.phase(), Phase::Idle);
}

#[test]
fn samples_are_ignored_while_idle() {
    let mut w = CaptureWorker::new(16000);
    assert_eq!(w.step(Event::Samples(vec![FULL_SCALE; 100])), Action::Continue);
    assert_eq!(w.buffered_len(), 0);
}

fn loud_clip(n: usize) -> Vec<i32> {
    let mut v = vec![0; n];
    v[0] = FULL_SCALE;
    v[n - 1] = -FULL_SCALE;
    v
}

#[test]
fn second_start_discards_earlier_samples() {
    let mut w = CaptureWorker::new(16000);
    assert_eq!(w.step(Event::Command(Command::Start)), Action::Continue);
    assert_eq!(w.step(Event::Samples(vec![FULL_SCALE; 50])), Action::Continue);
    assert_eq!(w.buffered_len(), 50);
    assert_eq!(w.step(Event::Command(Command::Start)), Action::Continue);
    assert_eq!(w.buffered_len(), 0);
    let later = loud_clip(40);
    assert_eq!(w.step(Event::Samples(later.clone())), Action::Continue);
    assert_eq!(w.step(Event::Command(Command::Stop)), Action::Reply(later));
}

#[test]
fn silent_session_replies_empty() {
    let mut w = CaptureWorker::new(48000);
    assert_eq!(w.step(Event::Command(Command::Start)), Action::Continue);
    for _ in 0..50 {
        assert_eq!(w.step(Event::Samples(vec![0; 480])), Action::Continue);
    }
    assert_eq!(w.buffered_len(), 24000);
    assert_eq!(w.step(Event::Command(Command::Stop)), Action::Reply(Vec::new()));
    assert_eq!(w.buffered_len(), 0);
}

#[test]
fn stop_resamples_then_trims() {
    let mut w = CaptureWorker::new(48000);
    w.step(Event::Command(Command::Start));
    let mut recording = vec![0; 48000];
    for v in &mut recording[12000..36000] {
        *v = 300_000;
    }
    w.step(Event::Samples(recording[..24000].to_vec()));
    assert_eq!(w.step(Event::Timeout), Action::Continue);
    w.step(Event::Samples(recording[24000..].to_vec()));
    let expected = finish_clip(&recording, 48000);
    // loud from 4000 to 11999 at 16 kHz, padded by 3200 on each side
    assert_eq!(expected.len(), 11999 + 3200 - 800);
    assert!(expected.iter().all(|&v| v == 0 || v == 300_000));
    assert_eq!(expected[3200], 300_000);
    assert_eq!(expected[3199], 0);
    assert_eq!(w.step(Event::Command(Command::Stop)), Action::Reply(expected));
    assert_eq!(w.phase(), Phase::Idle);
}

#[test]
fn shutdown_is_terminal() {
    let mut w = CaptureWorker::new(16000);
    w.step(Event::Command(Command::Start));
    w.step(Event::Samples(loud_clip(10)));
    assert_eq!(w.step(Event::Command(Command::Shutdown)), Action::Exit);
    assert_eq!(w.phase(), Phase::Terminated);
    assert_eq!(w.step(Event::Command(Command::Stop)), Action::Exit);
    assert_eq!(w.step(Event::Command(Command::Start)), Action::Exit);
    assert_eq!(w.phase(), Phase::Terminated);
}

#[test]
fn lost_source_ends_the_loop() {
    let mut w = CaptureWorker::new(44100);
    w.step(Event::Command(Command::Start));
    assert_eq!(w.step(Event::Disconnected), Action::Exit);
    assert_eq!(w.phase(), Phase::Terminated);
    assert_eq!(w.sample_rate(), 44100);
}
