use wizard_editor::audio::analysis::{chunk_samples, extract_mono_samples, fold_channels, waveform_peaks, Layout, SoundCursor, SoundRange};
use wizard_editor::audio::feed::{apply_fade, enqueue_samples, fill_output, resample_linear};
use wizard_editor::audio::mixer::{
    mix_block, push_audio_from_buffer, push_audio_samples_manual, push_block, push_resampled_f32, AudioMixer, AudioSource,
};
use wizard_editor::audio::ring::{create_output_ring, pop_available};
use wizard_editor::audio::sample::{decode_samples, sample_from_bits, spread_channels, SampleFormat, FULL_SCALE};

const S: i64 = 1_000_000_000;

#[test]
fn floats_are_read_exactly() {
    assert_eq!(sample_from_bits(0.0f32.to_bits()), 0);
    assert_eq!(sample_from_bits(1.0f32.to_bits()), FULL_SCALE);
    assert_eq!(sample_from_bits((-0.5f32).to_bits()), -FULL_SCALE / 2);
    assert_eq!(sample_from_bits(f32::NAN.to_bits()), 0);
    assert_eq!(sample_from_bits(1e9f32.to_bits()), i32::MAX);
}

#[test]
fn samples_are_read_from_bytes() {
    let mut data = Vec::new();
    data.extend_from_slice(&0.25f32.to_le_bytes());
    data.extend_from_slice(&(-1.0f32).to_le_bytes());
    data.push(1);
    assert_eq!(decode_samples(&data), vec![FULL_SCALE / 4, -FULL_SCALE]);
}

#[test]
fn samples_go_to_every_channel() {
    assert_eq!(spread_channels(&vec![1, 2], 2), vec![1, 1, 2, 2]);
    assert_eq!(spread_channels(&vec![1, 2, 3], 1), vec![1, 2, 3]);
    assert!(spread_channels(&vec![1, 2, 3], 0).is_empty());
}

#[test]
fn ring_hands_out_in_order() {
    let (mut p, mut c) = create_output_ring(48_000);
    assert_eq!(push_block(&mut p, &vec![1, 2, 3]), 3);
    assert_eq!(pop_available(&mut c, 2), vec![1, 2]);
    assert_eq!(push_block(&mut p, &vec![4]), 1);
    assert_eq!(pop_available(&mut c, 10), vec![3, 4]);
    assert!(pop_available(&mut c, 1).is_empty());
}

#[test]
fn full_ring_takes_no_more() {
    let (mut p, mut c) = create_output_ring(4);
    let n = push_block(&mut p, &vec![7; 100]);
    assert!(n < 100);
    assert_eq!(push_block(&mut p, &vec![8]), 0);
    assert_eq!(pop_available(&mut c, 100), vec![7; n]);
}

#[test]
fn output_is_filled_with_silence() {
    let (mut p, mut c) = create_output_ring(48_000);
    enqueue_samples(&mut p, &vec![5, 6], 1);
    let out = fill_output(&mut c, 6);
    assert_eq!(out.len(), 6);
    assert_eq!(out, vec![5, 6, 0, 0, 0, 0]);
    enqueue_samples(&mut p, &vec![1, 2, 3], 1);
    assert_eq!(fill_output(&mut c, 2), vec![1, 2]);
    assert_eq!(fill_output(&mut c, 2), vec![3, 0]);
}

#[test]
fn stereo_output_gets_each_sample_twice() {
    let (mut p, mut c) = create_output_ring(48_000);
    enqueue_samples(&mut p, &vec![5, 6], 2);
    assert_eq!(fill_output(&mut c, 5), vec![5, 5, 6, 6, 0]);
}

#[test]
fn buffer_bytes_reach_the_ring() {
    let (mut p, mut c) = AudioMixer::create_source_producer();
    let n = push_audio_from_buffer(&1.0f32.to_le_bytes().to_vec(), 2, &mut p);
    assert_eq!(n, 2);
    assert_eq!(pop_available(&mut c, 9), vec![FULL_SCALE, FULL_SCALE]);
}

#[test]
fn sources_are_added_and_clipped() {
    let h = FULL_SCALE / 2;
    assert_eq!(mix_block(&vec![vec![h, h], vec![h, FULL_SCALE]], 3), vec![FULL_SCALE, FULL_SCALE, 0]);
    assert_eq!(mix_block(&vec![vec![-FULL_SCALE], vec![-FULL_SCALE]], 1), vec![-FULL_SCALE]);
    assert_eq!(mix_block(&vec![vec![3, -4]], 2), vec![3, -4]);
}

#[test]
fn mixer_mixes_its_sources() {
    let mut m = AudioMixer::new();
    let (mut p, c) = AudioMixer::create_source_producer();
    let (mut q, d) = AudioMixer::create_source_producer();
    m.add_source(1, c);
    m.add_source(2, d);
    assert_eq!(m.source_count(), 2);
    push_block(&mut p, &vec![10, 20]);
    push_block(&mut q, &vec![1, 2, 3]);
    assert_eq!(m.mix_tick(), vec![11, 22, 3]);
    assert!(m.mix_tick().is_empty());
    push_block(&mut p, &vec![7; 5000]);
    push_block(&mut q, &vec![1]);
    let block = m.mix_tick();
    assert_eq!((block.len(), block[0], block[1]), (4096, 8, 7));
    assert_eq!(m.mix_tick(), vec![7; 904]);
    m.clear();
    assert_eq!(m.source_count(), 0);
}

#[test]
fn mixer_sources_are_replaced() {
    let mut m = AudioMixer::default();
    let (_p, c) = AudioMixer::create_source_producer();
    m.add_source(1, c);
    let (mut q, d) = AudioMixer::create_source_producer();
    push_block(&mut q, &vec![4]);
    m.replace_sources(vec![AudioSource { consumer: d, handle: 7 }]);
    assert_eq!(m.source_count(), 1);
    assert_eq!(m.sources[0].handle, 7);
    assert_eq!(m.mix_tick(), vec![4]);
}

#[test]
fn fade_ends_in_silence() {
    let faded = apply_fade(&vec![1000; 4800], 48_000);
    assert_eq!(faded.len(), 4800);
    assert_eq!(faded[0], 0);
    assert!(faded[4799].abs() <= 5);
    assert_eq!(faded[2400], 1000);
    assert!(apply_fade(&vec![], 48_000).is_empty());
}

#[test]
fn resampling_interpolates() {
    assert_eq!(resample_linear(&vec![1, 2, 3], 48_000, 48_000), vec![1, 2, 3]);
    assert_eq!(resample_linear(&vec![0, 100], 1, 2), vec![0, 50, 100, 100]);
    assert_eq!(resample_linear(&vec![0, 1, 2, 3], 2, 1), vec![0, 2]);
    assert!(resample_linear(&vec![], 1, 2).is_empty());
}

#[test]
fn peaks_hold_least_and_greatest() {
    assert_eq!(waveform_peaks(&vec![1, -2, 3, 4], 2), vec![(-2, 1), (3, 4)]);
    assert_eq!(waveform_peaks(&vec![25, 50, -50, -25], 2), vec![(25, 50), (-50, -25)]);
    assert!(waveform_peaks(&vec![], 2).is_empty());
    assert!(waveform_peaks(&vec![1], 0).is_empty());
}

#[test]
fn mono_is_the_mean_of_all_channels() {
    let packed = vec![vec![2, 4, 6, 8]];
    assert_eq!(fold_channels(&packed, Layout::Packed, 2, 2), vec![3, 7]);
    let planar = vec![vec![2, 6], vec![4, 8]];
    assert_eq!(fold_channels(&planar, Layout::Planar, 2, 2), vec![3, 7]);
}

#[test]
fn sound_range_seeks_when_it_jumps() {
    let near = SoundCursor { last_end: Some(5 * S) };
    let p = near.plan(5 * S, S, 10).unwrap();
    assert!(!p.seek);
    let far = near.plan(50 * S, S, 10).unwrap();
    assert!(far.seek);
    assert!(near.plan(0, 0, 10).is_none());
    assert!(far.is_enough(1_000, 10));
    assert!(!far.is_enough(0, 10));
    assert!(!far.is_enough(0, 0));
    assert!(far.is_enough(1_000, 0));
}

#[test]
fn sound_range_is_cut_out() {
    let c = SoundCursor { last_end: Some(5 * S) };
    let p = c.plan(5 * S + S / 2, S, 10).unwrap();
    let skip = p.skip as usize;
    let decoded: Vec<i32> = (0..40).collect();
    let cut = p.trim(&decoded);
    assert_eq!(cut, decoded[skip..].to_vec());
}

#[test]
fn bytes_of_every_format_are_read() {
    let shorts = vec![vec![0x00, 0x40, 0x00, 0xC0, 0x00, 0x80]];
    assert_eq!(
        extract_mono_samples(&shorts, SampleFormat::I16, Layout::Packed, 1, 3),
        vec![FULL_SCALE / 2, -FULL_SCALE / 2, -FULL_SCALE]
    );
    assert_eq!(extract_mono_samples(&shorts, SampleFormat::I16, Layout::Packed, 2, 1), vec![0]);
    let floats = vec![0.5f32.to_le_bytes().to_vec(), 1.0f32.to_le_bytes().to_vec()];
    assert_eq!(
        extract_mono_samples(&floats, SampleFormat::F32, Layout::Planar, 2, 2),
        vec![FULL_SCALE / 4 * 3, 0]
    );
    assert_eq!(extract_mono_samples(&floats, SampleFormat::Other, Layout::Planar, 2, 2), vec![0, 0]);
}

#[test]
fn decoded_frames_reach_the_ring() {
    let (mut p, mut c) = AudioMixer::create_source_producer();
    let shorts = vec![vec![0x00, 0x40, 0x00, 0x40]];
    assert_eq!(push_audio_samples_manual(&shorts, SampleFormat::I16, Layout::Packed, 2, 1, 2, &mut p), 2);
    assert_eq!(pop_available(&mut c, 9), vec![FULL_SCALE / 2; 2]);
    let mut data = 1.0f32.to_le_bytes().to_vec();
    data.extend_from_slice(&0.5f32.to_le_bytes());
    assert_eq!(push_resampled_f32(&data, 1, 1, &mut p), 1);
    assert_eq!(push_resampled_f32(&data, 9, 1, &mut p), 2);
    assert_eq!(pop_available(&mut c, 9), vec![FULL_SCALE, FULL_SCALE, FULL_SCALE / 2]);
}

#[test]
fn source_ring_holds_so_many_samples() {
    let (mut p, mut c) = AudioMixer::create_source_producer();
    assert_eq!(push_block(&mut p, &vec![7; 20_000]), 16_384);
    assert_eq!(pop_available(&mut c, 20_000).len(), 16_384);
}

#[test]
fn wanted_sound_ends_with_the_buffer_that_reaches_it() {
    let part = SoundRange::new(-5, 20).unwrap();
    assert_eq!((part.start, part.end), (0, 20));
    assert!(part.is_reached(Some(15), Some(5)));
    assert!(!part.is_reached(Some(15), Some(4)));
    assert!(!part.is_reached(Some(19), None));
    assert!(!part.is_reached(None, None));
    assert_eq!(SoundRange::new(3, 0), None);
}

#[test]
fn decoded_part_is_cut_and_resampled() {
    let mut c = SoundCursor { last_end: Some(0) };
    let plan = c.plan(250_000_000, 500_000_000, 8).unwrap();
    assert_eq!((plan.seek, plan.skip), (false, 2));
    let decoded = vec![1, 2, 30, 40, 50, 60];
    assert_eq!(c.finish(plan, &decoded, 8, 8), vec![30, 40, 50, 60]);
    assert_eq!(c.last_end, Some(750_000_000));
    assert!(!c.plan(750_000_000, 1, 8).unwrap().seek);
    assert_eq!(c.finish_chunk(vec![0, 10], 8, 16), vec![0, 5, 10, 10]);
    assert_eq!(c.last_end, Some(1_000_000_000));
    c.seek_to(5);
    assert_eq!(c.last_end, Some(5));
    assert_eq!(chunk_samples(500_000_000, 48_000), Some(24_000));
    assert_eq!(chunk_samples(0, 48_000), None);
}
