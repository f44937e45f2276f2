use statsctl::plot::{
    axis_label_step, bar_label, bin_counts, box_line, ceil_log2, density_grid, histogram_bars,
    outlier_line, plot_height, plot_width, scatter_marks, sturges_bins, y_label_row, BarCell,
};

#[test]
fn sturges_rule_and_clamps() {
    assert_eq!(ceil_log2(1), 0);
    assert_eq!(ceil_log2(8), 3);
    assert_eq!(ceil_log2(9), 4);
    assert_eq!(sturges_bins(1, 50), 5);
    assert_eq!(sturges_bins(1, 4), 2);
    assert_eq!(sturges_bins(2, 50), 5);
    assert_eq!(sturges_bins(1000, 50), 11);
    assert_eq!(sturges_bins(1_000_000, 20), 10);
    assert_eq!(sturges_bins(100, 6), 3);
    assert_eq!(sturges_bins(100, 1), 1);
}

#[test]
fn bins_collect_indices_past_the_end_in_the_last() {
    assert_eq!(bin_counts(&vec![0, 1, 1, 4, 9], 3), vec![1, 2, 2]);
    // a single repeated value lands in bin 0
    assert_eq!(bin_counts(&vec![0, 0, 0], 5), vec![3, 0, 0, 0, 0]);
}

#[test]
fn bars_fill_from_the_bottom() {
    let bars = histogram_bars(&vec![4, 2, 0, 1], 4);
    let (e, f, h) = (BarCell::Empty, BarCell::Full, BarCell::Half);
    assert_eq!(
        bars,
        vec![
            vec![f, e, e, e],
            vec![f, h, e, e],
            vec![f, f, e, h],
            vec![f, f, h, f],
        ]
    );
    assert_eq!(histogram_bars(&vec![1], 40).len(), 15);
}

#[test]
fn single_value_histogram_is_drawn() {
    // zero range: every value lands in the first of the bins
    let counts = bin_counts(&vec![0, 0], sturges_bins(2, 50));
    assert_eq!(counts, vec![2, 0, 0, 0, 0]);
    let bars = histogram_bars(&counts, 12);
    assert_eq!(bars.len(), 12);
    assert!(bars.iter().all(|r| r[0] == BarCell::Full));
}

#[test]
fn labels_and_steps() {
    assert_eq!(bar_label(11, 12, 9), Some(9));
    assert_eq!(bar_label(0, 12, 9), Some(0));
    assert_eq!(bar_label(6, 12, 9), Some(4));
    assert_eq!(bar_label(3, 12, 9), None);
    assert_eq!(axis_label_step(4), 1);
    assert_eq!(axis_label_step(11), 2);
    assert!(y_label_row(0, 15) && y_label_row(7, 15) && y_label_row(14, 15));
    assert!(!y_label_row(3, 15));
}

#[test]
fn plot_area_is_clamped() {
    assert_eq!(plot_width(5), 20);
    assert_eq!(plot_width(50), 50);
    assert_eq!(plot_width(100), 60);
    assert_eq!(plot_height(1), 8);
    assert_eq!(plot_height(15), 15);
    assert_eq!(plot_height(30), 20);
}

#[test]
fn box_line_marks() {
    let line: String = box_line(10, 1, 3, 4, 6, 8).into_iter().collect();
    assert_eq!(line, " ├─█│██─┤ ");
    // zero range: every mark on the midpoint
    let flat: String = box_line(20, 10, 10, 10, 10, 10).into_iter().collect();
    assert_eq!(flat.chars().nth(10), Some('┤'));
    assert_eq!(flat.chars().filter(|c| *c != ' ').count(), 1);
    let o: String = outlier_line(6, &vec![0, 4, 9]).into_iter().collect();
    assert_eq!(o, "o   o ");
}

#[test]
fn scatter_density() {
    let pts = vec![(0, 0), (0, 0), (1, 2), (5, 9), (1, 2), (1, 2), (1, 2), (2, 1)];
    let g = density_grid(&pts, 3, 3);
    assert_eq!(g, vec![vec![2, 0, 0], vec![0, 0, 4], vec![0, 1, 1]]);
    let m = scatter_marks(&pts, 3, 3);
    assert_eq!(m, vec![vec!['◦', ' ', ' '], vec![' ', ' ', '●'], vec![' ', '·', '·']]);
}
