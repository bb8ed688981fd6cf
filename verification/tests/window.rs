use scope_core::export::{csv_header, plot_offsets, trace_color, TYPST_MAX_POINTS};
use scope_core::timebase::{visible_window, window_start};

#[test]
fn window_start_follows_newest_samples() {
    // Everything fits: start at 0.
    assert_eq!(window_start(50, 100, 0), 0);
    assert_eq!(window_start(100, 100, 7), 0);
    // The newest 100 of 1000.
    assert_eq!(window_start(1000, 100, 0), 900);
    // Scrolled back by 250 samples.
    assert_eq!(window_start(1000, 100, 250), 650);
    // Scrolled past the oldest sample: clamped to 0.
    assert_eq!(window_start(1000, 100, 5000), 0);
    // Scrolled forward past the newest: clamped to the last full window.
    assert_eq!(window_start(1000, 100, -40), 900);
}

#[test]
fn visible_window_is_full_width_when_possible() {
    assert_eq!(visible_window(1000, 100, 250), (650, 100));
    assert_eq!(visible_window(1000, 100, -40), (900, 100));
    assert_eq!(visible_window(30, 100, 0), (0, 30));
    assert_eq!(visible_window(0, 100, 0), (0, 0));
}

#[test]
fn plot_offsets_downsample() {
    assert_eq!(plot_offsets(5, 500), vec![0, 1, 2, 3, 4]);
    assert_eq!(plot_offsets(0, 500), Vec::<usize>::new());
    // 1200 samples on 500 points: every 2nd sample.
    let offs = plot_offsets(1200, TYPST_MAX_POINTS);
    assert_eq!(offs.len(), 600);
    assert_eq!(offs[1], 2);
    assert_eq!(*offs.last().unwrap(), 1198);
    // 1001 samples on 500 points: step 2, 501 points, the last at 1000.
    let offs = plot_offsets(1001, 500);
    assert_eq!(offs.len(), 501);
    assert_eq!(*offs.last().unwrap(), 1000);
    assert_eq!(plot_offsets(10, 3), vec![0, 3, 6, 9]);
}

#[test]
fn csv_header_lists_channel_labels() {
    assert_eq!(csv_header(&vec!["CH1".to_string()]), "time,CH1\n");
    assert_eq!(csv_header(&vec![]), "time\n");
    assert_eq!(csv_header(&vec!["CH1".to_string(), "CH3".to_string()]), "time,CH1,CH3\n");
}

#[test]
fn trace_colors_cycle() {
    assert_eq!(trace_color(0), "green");
    assert_eq!(trace_color(1), "yellow");
    assert_eq!(trace_color(2), "cyan");
    assert_eq!(trace_color(3), "magenta");
    assert_eq!(trace_color(4), "green");
}
