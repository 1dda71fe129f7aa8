use dsp_graph::node::zeroed;
use dsp_graph::Graph;
use dsp_graph::Node;
use dsp_graph::NodeKind;
use dsp_graph::Settings;
use dsp_graph::UNIT;

fn mixer(volume: i64, panning: i64, inputs: Vec<usize>) -> Node {
    Node { volume, panning, inputs, kind: NodeKind::Mixer }
}

fn source(value: i64) -> Node {
    Node { volume: UNIT, panning: 0, inputs: Vec::new(), kind: NodeKind::Source { value } }
}

fn stereo(frames: u16) -> Settings {
    Settings { frames, channels: 2 }
}

#[test]
fn mixer_with_no_inputs_leaves_the_buffer_unchanged() {
    let g = Graph { nodes: vec![mixer(UNIT, 0, Vec::new())] };
    let mut out: Vec<i64> = vec![5, -6, 7, -8];
    g.audio_requested(0, &mut out, stereo(2));
    assert_eq!(out, vec![5, -6, 7, -8]);
}

#[test]
fn single_input_is_scaled_exactly_by_the_channel_gains() {
    // volume 0.5, center pan: every sample of the input arrives halved
    let g = Graph { nodes: vec![source(1000), mixer(UNIT / 2, 0, vec![0])] };
    let mut out = zeroed(4);
    g.audio_requested(1, &mut out, stereo(2));
    assert_eq!(out, vec![500, 500, 500, 500]);
}

#[test]
fn single_input_is_added_onto_existing_content() {
    let g = Graph { nodes: vec![source(1000), mixer(UNIT / 2, 0, vec![0])] };
    let mut out: Vec<i64> = vec![10, 20, 30, 40];
    g.audio_requested(1, &mut out, stereo(2));
    assert_eq!(out, vec![510, 520, 530, 540]);
}

#[test]
fn two_constant_sources_sum_to_twice_the_value() {
    // gain [1, 1]: full volume, center pan; zero-filled output becomes 2 * v
    let g = Graph { nodes: vec![source(700), source(700), mixer(UNIT, 0, vec![0, 1])] };
    let mut out = zeroed(6);
    g.audio_requested(2, &mut out, stereo(3));
    assert_eq!(out, vec![1400, 1400, 1400, 1400, 1400, 1400]);
}

#[test]
fn hard_right_pan_silences_the_left_samples() {
    let g = Graph { nodes: vec![source(1000), mixer(UNIT, UNIT, vec![0])] };
    let mut out = zeroed(6);
    g.audio_requested(1, &mut out, stereo(3));
    assert_eq!(out, vec![0, 1000, 0, 1000, 0, 1000]);
}

#[test]
fn hard_left_pan_silences_the_right_samples() {
    let g = Graph { nodes: vec![source(1000), mixer(UNIT, -UNIT, vec![0])] };
    let mut out = zeroed(6);
    g.audio_requested(1, &mut out, stereo(3));
    assert_eq!(out, vec![1000, 0, 1000, 0, 1000, 0]);
}

#[test]
fn deep_chain_of_mixers_terminates_and_passes_the_signal_through() {
    // a source under forty unity mixers, each the only input of the next
    let mut nodes = vec![source(123)];
    for i in 0..40usize {
        nodes.push(mixer(UNIT, 0, vec![i]));
    }
    let g = Graph { nodes };
    let mut out = zeroed(4);
    g.audio_requested(40, &mut out, stereo(2));
    assert_eq!(out, vec![123, 123, 123, 123]);
}

#[test]
fn wide_fanout_mixes_every_input() {
    let mut nodes: Vec<Node> = (0..10i64).map(|v| source(v * 10)).collect();
    nodes.push(mixer(UNIT, 0, (0..10usize).collect()));
    let g = Graph { nodes };
    let mut out = zeroed(2);
    g.audio_requested(10, &mut out, stereo(1));
    // 0 + 10 + ... + 90
    assert_eq!(out, vec![450, 450]);
}

#[test]
fn source_overwrites_whatever_the_buffer_held() {
    let g = Graph { nodes: vec![source(42)] };
    let mut out: Vec<i64> = vec![7, 8, 9];
    g.audio_requested(0, &mut out, Settings { frames: 3, channels: 1 });
    assert_eq!(out, vec![42, 42, 42]);
}

#[test]
fn mono_buffers_use_the_left_gain() {
    // hard right pan leaves nothing on the left channel, the only one there is
    let g = Graph { nodes: vec![source(1000), mixer(UNIT, UNIT, vec![0])] };
    let mut out = zeroed(3);
    g.audio_requested(1, &mut out, Settings { frames: 3, channels: 1 });
    assert_eq!(out, vec![0, 0, 0]);
}

#[test]
fn scaling_truncates_toward_zero() {
    // -3 * 0.5 is -1.5, which truncates to -1, not -2
    let g = Graph { nodes: vec![source(-3), mixer(UNIT / 2, 0, vec![0])] };
    let mut out = zeroed(2);
    g.audio_requested(1, &mut out, Settings { frames: 2, channels: 1 });
    assert_eq!(out, vec![-1, -1]);
}

#[test]
fn empty_cycle_is_a_no_op() {
    let g = Graph { nodes: vec![source(5), mixer(UNIT, 0, vec![0])] };
    let mut out: Vec<i64> = Vec::new();
    g.audio_requested(1, &mut out, Settings { frames: 0, channels: 2 });
    assert_eq!(out, Vec::<i64>::new());
}

#[test]
fn sample_count_is_frames_times_channels() {
    assert_eq!(Settings { frames: 3, channels: 2 }.sample_count(), 6);
    assert_eq!(Settings { frames: 512, channels: 2 }.sample_count(), 1024);
    assert_eq!(Settings { frames: 7, channels: 0 }.sample_count(), 0);
}

#[test]
fn zeroed_makes_a_zero_buffer_of_the_asked_length() {
    assert_eq!(zeroed(5), vec![0, 0, 0, 0, 0]);
    assert_eq!(zeroed(0), Vec::<i64>::new());
}

#[test]
fn check_wf_accepts_downward_input_references() {
    let g = Graph { nodes: vec![source(1), source(2), mixer(UNIT, 0, vec![0, 1])] };
    assert!(g.check_wf());
}

#[test]
fn check_wf_rejects_self_and_forward_references() {
    let own = Graph { nodes: vec![mixer(UNIT, 0, vec![0])] };
    assert!(!own.check_wf());
    let forward = Graph { nodes: vec![mixer(UNIT, 0, vec![1]), source(1)] };
    assert!(!forward.check_wf());
}
