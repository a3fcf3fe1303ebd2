use bigtea_arch::log::{configure, enabled, log, Log, LogConfig, Sink};

#[test]
fn verbosity_gates_by_level() {
    let state = Log::new();
    assert!(enabled(&state, 1));
    assert!(!enabled(&state, 2));
}

#[test]
fn a_disabled_log_still_answers_enabled_honestly() {
    let cfg = LogConfig {
        verbosity: 0,
        ..LogConfig::default()
    };
    assert_eq!(cfg.verbosity, 0);
    assert!(cfg.file.is_none());
    assert!(!cfg.timestamps && !cfg.prefix);
    let mut state = Log::new();
    assert!(configure(&mut state, cfg));
    assert!(!enabled(&state, 1));
}

#[test]
fn the_first_configuration_wins() {
    let mut state = Log::new();
    let loud = LogConfig {
        verbosity: 2,
        ..LogConfig::default()
    };
    assert!(configure(&mut state, loud));
    assert!(!configure(&mut state, LogConfig::default()));
    assert!(enabled(&state, 2));
}

#[test]
fn lines_are_stamped_marked_and_coloured_as_asked() {
    let state = Log::new();
    assert_eq!(
        log(&state, 1, "  0.000 ", "hello", false),
        Some((Sink::Terminal, "hello".to_string()))
    );
    assert_eq!(log(&state, 2, "  0.000 ", "hello", false), None);

    let mut state = Log::new();
    configure(
        &mut state,
        LogConfig {
            verbosity: 2,
            timestamps: true,
            prefix: true,
            file: None,
            colors: true,
        },
    );
    assert_eq!(
        log(&state, 1, "  1.500 ", "up", false),
        Some((Sink::Terminal, "\x1b[36m  1.500 I up\x1b[0m".to_string()))
    );
    assert_eq!(
        log(&state, 2, "  1.500 ", "up", false),
        Some((Sink::Terminal, "\x1b[2m  1.500 D up\x1b[0m".to_string()))
    );
    assert_eq!(
        log(&state, 1, "  1.500 ", "up", true),
        Some((Sink::File, "  1.500 I up".to_string()))
    );
    assert_eq!(log(&state, 3, "", "quiet", false), None);
}
