use dsp_graph::Node;
use dsp_graph::NodeKind;
use dsp_graph::UNIT;

fn plain(volume: i64, panning: i64) -> Node {
    Node { volume, panning, inputs: Vec::new(), kind: NodeKind::Mixer }
}

#[test]
fn center_pan_keeps_full_volume_on_both_channels() {
    // pan 0.0, volume 1.0 -> [1.0, 1.0]
    assert_eq!(plain(UNIT, 0).vol_per_channel(), (UNIT, UNIT));
}

#[test]
fn hard_right_pan_silences_left() {
    // pan 1.0, volume 1.0 -> [0.0, 1.0]
    assert_eq!(plain(UNIT, UNIT).vol_per_channel(), (0, UNIT));
}

#[test]
fn hard_left_pan_silences_right() {
    // pan -1.0, volume 1.0 -> [1.0, 0.0]
    assert_eq!(plain(UNIT, -UNIT).vol_per_channel(), (UNIT, 0));
}

#[test]
fn half_right_pan_at_double_volume() {
    // pan 0.5, volume 2.0 -> [1.0, 2.0]
    assert_eq!(plain(2 * UNIT, UNIT / 2).vol_per_channel(), (UNIT, 2 * UNIT));
}

#[test]
fn pan_beyond_right_is_accepted_and_amplifies_left() {
    // pan 3.0, volume 1.0 -> [2.0, 1.0]: gains outside [0, 1] are not clamped
    assert_eq!(plain(UNIT, 3 * UNIT).vol_per_channel(), (2 * UNIT, UNIT));
}

#[test]
fn pan_beyond_left_gives_negative_right_gain() {
    // pan -2.0, volume 1.0 -> [1.0, -1.0]
    assert_eq!(plain(UNIT, -2 * UNIT).vol_per_channel(), (UNIT, -UNIT));
}

#[test]
fn negative_volume_inverts_polarity() {
    assert_eq!(plain(-UNIT, 0).vol_per_channel(), (-UNIT, -UNIT));
}

#[test]
fn zero_volume_is_silent_on_both_channels() {
    assert_eq!(plain(0, UNIT / 4).vol_per_channel(), (0, 0));
}

#[test]
fn volume_and_pan_getters_return_the_fields() {
    let n = plain(3 * UNIT, -UNIT / 2);
    assert_eq!(n.vol(), 3 * UNIT);
    assert_eq!(n.pan(), -UNIT / 2);
    assert!(n.inputs().is_empty());
}

#[test]
fn default_node_is_centered_at_full_volume() {
    let n = Node::default();
    assert_eq!(n.vol(), UNIT);
    assert_eq!(n.pan(), 0);
    assert!(n.inputs().is_empty());
    assert_eq!(n.kind, NodeKind::Mixer);
    assert_eq!(n.vol_per_channel(), (UNIT, UNIT));
}
