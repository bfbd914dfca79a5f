use flico::labels::{
    csv_path, export_csv, failed_status, fft_info, freq_title, hud_text, perf_text, saved_status,
    state_label, time_title,
};
use flico::text::to_decimal;

#[test]
fn decimal_numbers() {
    assert_eq!(to_decimal(0), "0");
    assert_eq!(to_decimal(9), "9");
    assert_eq!(to_decimal(10), "10");
    assert_eq!(to_decimal(80_305), "80305");
    assert_eq!(to_decimal(u64::MAX), "18446744073709551615");
}

#[test]
fn lines_on_the_state() {
    assert_eq!(hud_text(true, 12, 345), "Fs = 16000 Hz   buffer N = 12   emitted = 345");
    assert_eq!(hud_text(false, 12, 345), "Fs = 16000 Hz");
    assert_eq!(state_label(true), "\u{25CF} RUN");
    assert_eq!(state_label(false), "\u{25A0} STOP");
    assert_eq!(fft_info(Some((100, 128)), "0.50"), "FFT: N=100 pad=128 took 0.50 ms");
    assert_eq!(fft_info(None, ""), "FFT: (waiting)");
    assert_eq!(
        perf_text(" 0.25", "16.67", "60.0", "FFT: (waiting)"),
        "perf: snapshot  0.25 ms   inter-frame 16.67 ms   \u{2248} 60.0 fps   |   FFT: (waiting)"
    );
}

#[test]
fn titles_of_the_plots() {
    assert_eq!(
        time_title(true, "-5.00 s", "0 s", "5.00 s"),
        "Time domain \u{2014} I(t)   t \u{2208} [-5.00 s, 0 s]   span = 5.00 s"
    );
    assert_eq!(
        time_title(false, "-5.00 s", "0 s", "5.00 s"),
        "Time domain \u{2014} I(t)   t \u{2208} [-5.00 s, 0 s]"
    );
    assert_eq!(
        freq_title(true, "0 Hz", "8.00 kHz", Some(80_000)),
        "Frequency domain \u{2014} |I|(f)   f \u{2208} [0 Hz, 8.00 kHz]   slice = 80000 pts"
    );
    assert_eq!(
        freq_title(true, "0 Hz", "8.00 kHz", None),
        "Frequency domain \u{2014} |I|(f)   f \u{2208} [0 Hz, 8.00 kHz]   (computing\u{2026})"
    );
    assert_eq!(
        freq_title(false, "0 Hz", "8.00 kHz", Some(1)),
        "Frequency domain \u{2014} |I|(f)   f \u{2208} [0 Hz, 8.00 kHz]"
    );
}

#[test]
fn export_has_a_line_for_each_sample() {
    let row = |t: &str, y: &str| (t.to_string(), y.to_string());
    assert_eq!(csv_path(1_700_000_000), "flicker_1700000000.csv");
    assert_eq!(export_csv(&vec![]), "sample_idx,t_ms,value\n");
    assert_eq!(
        export_csv(&vec![row("-0.0625", "0.100000"), row("0.0000", "0.200000")]),
        "sample_idx,t_ms,value\n0,-0.0625,0.100000\n1,0.0000,0.200000\n"
    );
}

#[test]
fn status_of_an_export() {
    assert_eq!(saved_status("a.csv", 7), "saved a.csv (7 samples)");
    assert_eq!(failed_status("disk full"), "save failed: disk full");
}
