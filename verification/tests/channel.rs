use scope_core::channel::{channel_color, channel_label, ChannelColor, Coupling, DEFAULT_BUFFER_CAPACITY};

#[test]
fn color_to_rgba_is_opaque() {
    let c = ChannelColor::new(1, 2, 3);
    assert_eq!((c.r, c.g, c.b), (1, 2, 3));
    assert_eq!(c.to_rgba(), [1, 2, 3, 255]);
}

#[test]
fn channel_colors_cycle_through_palette() {
    let rgb = |i: usize| {
        let c = channel_color(i);
        (c.r, c.g, c.b)
    };
    assert_eq!(rgb(0), (64, 255, 64));
    assert_eq!(rgb(1), (255, 255, 64));
    assert_eq!(rgb(2), (64, 200, 255));
    assert_eq!(rgb(3), (255, 64, 255));
    assert_eq!(rgb(4), rgb(0));
    assert_eq!(rgb(7), rgb(3));
}

#[test]
fn channel_labels_count_from_one() {
    assert_eq!(channel_label(0), "CH1");
    assert_eq!(channel_label(9), "CH10");
    assert_eq!(channel_label(122), "CH123");
    assert_eq!(channel_label(usize::MAX - 1), format!("CH{}", usize::MAX));
}

#[test]
fn coupling_grounds_or_passes_samples() {
    assert_eq!(Coupling::DC.apply(1.5f32, 0.0), 1.5);
    assert_eq!(Coupling::AC.apply(-2.0f32, 0.0), -2.0);
    assert_eq!(Coupling::GND.apply(3.0f32, 0.0), 0.0);
    assert_eq!(DEFAULT_BUFFER_CAPACITY, 1_000_000);
}
