use dobby_backend::config::from_lookup;
use dobby_backend::domain::{AppError, TimeRange};
use dobby_backend::sampler::{cleanup_cutoff, sample_step, SampleStep, SamplerSettings, SECS_PER_DAY};
use dobby_backend::storage::{query_window, QueryWindow};
use dobby_backend::terminal::{on_client_frame, shell_plan, ClientFrame, FrameAction};

#[test]
fn sampler_settings_from_config() {
    let cfg = from_lookup(&vec![
        ("MONITOR_SAMPLE_INTERVAL_SECS".to_string(), "10".to_string()),
        ("MONITOR_CLEANUP_INTERVAL_SECS".to_string(), "60".to_string()),
    ])
    .unwrap();
    let s = SamplerSettings::from_config(&cfg);
    assert_eq!(s.sample_interval_secs, 10);
    assert_eq!(s.cleanup_interval_secs, 60);
    assert_eq!(s.retention_secs, 7 * 86_400);
}

#[test]
fn cleanup_uses_now_minus_retention() {
    let fixed_now: i64 = 2_000_000_000;
    assert_eq!(cleanup_cutoff(fixed_now, 7 * SECS_PER_DAY), fixed_now - 604_800);
}

#[test]
fn sample_step_inserts_samples_and_skips_failures() {
    assert!(matches!(sample_step::<i32>(Ok(4)), SampleStep::Insert(4)));
    assert!(matches!(
        sample_step::<i32>(Err(AppError::Collect("boom".into()))),
        SampleStep::Skip(AppError::Collect(ref m)) if m == "boom"
    ));
}

#[test]
fn query_window_for_each_range() {
    assert_eq!(
        query_window(TimeRange::Hour1, 10_000),
        QueryWindow { bucket_secs: 10, start_ts: 6_400 }
    );
    assert_eq!(
        query_window(TimeRange::Hour6, 10_000),
        QueryWindow { bucket_secs: 60, start_ts: 10_000 - 21_600 }
    );
    assert_eq!(
        query_window(TimeRange::Day7, 1_000_000),
        QueryWindow { bucket_secs: 1_800, start_ts: 1_000_000 - 604_800 }
    );
}

#[test]
fn shell_plan_pins_program_and_scrubs_env() {
    let plan = shell_plan(true, Some("/home/u".into())).unwrap();
    assert_eq!(plan.program, "/bin/bash");
    assert_eq!(plan.cwd, "/home/u");
    assert_eq!((plan.rows, plan.cols), (24, 80));
    assert_eq!(
        plan.env,
        vec![
            ("PATH".to_string(), "/usr/local/bin:/usr/bin:/bin".to_string()),
            ("TERM".to_string(), "xterm-256color".to_string()),
            ("LANG".to_string(), "C.UTF-8".to_string()),
            ("HOME".to_string(), "/home/u".to_string()),
        ]
    );
    assert_eq!(shell_plan(true, None).unwrap().cwd, "/");
    assert_eq!(
        shell_plan(false, None).unwrap_err(),
        "refusing to spawn terminal: /bin/bash not found"
    );
}

#[test]
fn client_frames_map_to_actions() {
    assert!(matches!(on_client_frame(ClientFrame::Binary(vec![1, 2])), FrameAction::Write(ref b) if b == &vec![1, 2]));
    assert!(matches!(on_client_frame(ClientFrame::Resize { cols: 100, rows: 40 }), FrameAction::Resize { cols: 100, rows: 40 }));
    assert!(matches!(on_client_frame(ClientFrame::Text), FrameAction::Ignore));
    assert!(matches!(on_client_frame(ClientFrame::Other), FrameAction::Ignore));
    assert!(matches!(on_client_frame(ClientFrame::Close), FrameAction::Stop));
}

#[test]
fn clock_reads_a_plausible_epoch_time() {
    let now = dobby_backend::storage::now_unix_secs();
    assert!(now > 1_600_000_000, "timestamp looks wrong: {now}");
    let also = dobby_backend::collector::now_epoch_secs();
    assert!(also >= now);
}

#[test]
fn session_frames_write_payloads_and_resize_until_close() {
    let frames = vec![
        ClientFrame::Binary(b"ls".to_vec()),
        ClientFrame::Text,
        ClientFrame::Resize { cols: 120, rows: 30 },
        ClientFrame::Other,
        ClientFrame::Binary(b" -l\n".to_vec()),
        ClientFrame::Close,
        ClientFrame::Binary(b"exit\n".to_vec()),
        ClientFrame::Resize { cols: 10, rows: 10 },
    ];
    let mut written: Vec<u8> = Vec::new();
    let mut resizes: Vec<(u16, u16)> = Vec::new();
    let mut closed = false;
    for frame in frames {
        match on_client_frame(frame) {
            FrameAction::Write(b) => written.extend_from_slice(&b),
            FrameAction::Resize { cols, rows } => resizes.push((cols, rows)),
            FrameAction::Ignore => {}
            FrameAction::Stop => {
                closed = true;
                break;
            }
        }
    }
    assert_eq!(written, b"ls -l\n".to_vec());
    assert_eq!(resizes, vec![(120, 30)]);
    assert!(closed);
}

#[test]
fn largest_retention_within_bound_does_not_overflow() {
    let days = (i64::MAX / SECS_PER_DAY).to_string();
    let cfg = from_lookup(&vec![("MONITOR_RETENTION_DAYS".to_string(), days)]).unwrap();
    let s = SamplerSettings::from_config(&cfg);
    assert_eq!(s.retention_secs, (i64::MAX / SECS_PER_DAY) * SECS_PER_DAY);
    assert_eq!(cleanup_cutoff(0, s.retention_secs), -s.retention_secs);
    assert_eq!(cleanup_cutoff(i64::MAX, s.retention_secs), i64::MAX - s.retention_secs);
}
