use vroomrs::android::repair::{checked_adjusted_time, get_adjusted_time};
use vroomrs::android::{
    Android, AndroidEvent, AndroidThread, Clock, Duration, EventMonotonic, EventTime,
};

fn timed(thread_id: u64, secs: u64, nanos: u64) -> AndroidEvent {
    AndroidEvent {
        action: None,
        thread_id,
        method_id: 0,
        time: EventTime {
            global: None,
            monotonic: Some(EventMonotonic {
                wall: Some(Duration {
                    secs: Some(secs),
                    nanos: Some(nanos),
                }),
                cpu: None,
            }),
        },
    }
}

fn wall_ns(event: &AndroidEvent) -> Option<u64> {
    let wall = event.time.monotonic?.wall?;
    Some(wall.secs? * 1_000_000_000 + wall.nanos?)
}

fn trace(clock: Clock, events: Vec<AndroidEvent>) -> Android {
    Android {
        clock,
        events,
        ..Default::default()
    }
}

#[test]
fn test_fix_samples_time() {
    struct TestStruct {
        name: String,
        trace: Android,
        want: Android,
    }

    let test_cases = [TestStruct {
        name: "Make sample secs monotonic".to_string(),
        trace: Android {
            clock: Clock::Dual,
            events: vec![
            AndroidEvent {
                action: Some("Enter".to_string()),
                thread_id: 1,
                method_id: 1,
                time: EventTime {
                    monotonic: Some(EventMonotonic {
                        wall: Some(Duration {
                            secs: Some(1),
                            nanos: Some(1000),
                        }),
                        ..Default::default()
                    }),
                    ..Default::default()
                },
            },
            AndroidEvent {
                action: Some("Enter".to_string()),
                thread_id: 1,
                method_id: 2,
                time: EventTime {
                    monotonic: Some(EventMonotonic {
                        wall: Some(Duration {
                            secs: Some(2),
                            nanos: Some(1000),
                        }),
                        ..Default::default()
                    }),
                    ..Default::default()
                },
            },
            AndroidEvent {
                action: Some("Enter".to_string()),
                thread_id: 1,
                method_id: 3,
                time: EventTime {
                    monotonic: Some(EventMonotonic {
                        wall: Some(Duration {
                            secs: Some(7),
                            nanos: Some(2000),
                        }),
                        ..Default::default()
                    }),
                    ..Default::default()
                },
            },
            AndroidEvent {
                action: Some("Exit".to_string()),
                thread_id: 1,
                method_id: 3,
                time: EventTime {
                    monotonic: Some(EventMonotonic {
                        wall: Some(Duration {
                            secs: Some(6),
                            nanos: Some(3000),
                        }),
                        ..Default::default()
                    }),
                    ..Default::default()
                },
            },
            AndroidEvent {
                action: Some("Exit".to_string()),
                thread_id: 1,
                method_id: 2,
                time: EventTime {
                    monotonic: Some(EventMonotonic {
                        wall: Some(Duration {
                            secs: Some(6),
                            nanos: Some(3000),
                        }),
                        ..Default::default()
                    }),
                    ..Default::default()
                },
            },
            AndroidEvent {
                action: Some("Exit".to_string()),
                thread_id: 1,
                method_id: 1,
                time: EventTime {
                    monotonic: Some(EventMonotonic {
                        wall: Some(Duration {
                            secs: Some(9),
                            nanos: Some(3000),
                        }),
                        ..Default::default()
                    }),
                    ..Default::default()
                },
            },
            AndroidEvent {
                action: Some("Enter".to_string()),
                thread_id: 2,
                method_id: 1,
                time: EventTime {
                    monotonic: Some(EventMonotonic {
                        wall: Some(Duration {
                            secs: Some(1),
                            nanos: Some(3000),
                        }),
                        ..Default::default()
                    }),
                    ..Default::default()
                },
            },
            AndroidEvent {
                action: Some("Enter".to_string()),
                thread_id: 2,
                method_id: 2,
                time: EventTime {
                    monotonic: Some(EventMonotonic {
                        wall: Some(Duration {
                            secs: Some(2),
                            nanos: Some(3000),
                        }),
                        ..Default::default()
                    }),
                    ..Default::default()
                },
            },
            AndroidEvent {
                action: Some("Exit".to_string()),
                thread_id: 2,
                method_id: 2,
                time: EventTime {
                    monotonic: Some(EventMonotonic {
                        wall: Some(Duration {
                            secs: Some(2),
                            nanos: Some(3000),
                        }),
                        ..Default::default()
                    }),
                    ..Default::default()
                },
            },
            AndroidEvent {
                action: Some("Exit".to_string()),
                thread_id: 2,
                method_id: 1,
                time: EventTime {
                    monotonic: Some(EventMonotonic {
                        wall: Some(Duration {
                            secs: Some(3),
                            nanos: Some(3000),
                        }),
                        ..Default::default()
                    }),
                    ..Default::default()
                },
            },
            ],
            start_time: 398635355383000,
            threads: vec![
                AndroidThread {
                    id: 1,
                    name: "main".to_string(),
                },
                AndroidThread {
                    id: 2,
                    name: "background".to_string(),
                },
            ],
            ..Default::default()
        },
        want: Android {
            clock: Clock::Dual,
            events: vec![
            AndroidEvent {
                action: Some("Enter".to_string()),
                thread_id: 1,
                method_id: 1,
                time: EventTime {
                    monotonic: Some(EventMonotonic {
                        wall: Some(Duration {
                            secs: Some(1),
                            nanos: Some(1000),
                        }),
                        ..Default::default()
                    }),
                    ..Default::default()
                },
            },
            AndroidEvent {
                action: Some("Enter".to_string()),
                thread_id: 1,
                method_id: 2,
                time: EventTime {
                    monotonic: Some(EventMonotonic {
                        wall: Some(Duration {
                            secs: Some(2),
                            nanos: Some(1000),
                        }),
                        ..Default::default()
                    }),
                    ..Default::default()
                },
            },
            AndroidEvent {
                action: Some("Enter".to_string()),
                thread_id: 1,
                method_id: 3,
                time: EventTime {
                    monotonic: Some(EventMonotonic {
                        wall: Some(Duration {
                            secs: Some(7),
                            nanos: Some(2000),
                        }),
                        ..Default::default()
                    }),
                    ..Default::default()
                },
            },
            AndroidEvent {
                action: Some("Exit".to_string()),
                thread_id: 1,
                method_id: 3,
                time: EventTime {
                    monotonic: Some(EventMonotonic {
                        wall: Some(Duration {
                            secs: Some(8),
                            nanos: Some(2000),
                        }),
                        ..Default::default()
                    }),
                    ..Default::default()
                },
            },
            AndroidEvent {
                action: Some("Exit".to_string()),
                thread_id: 1,
                method_id: 2,
                time: EventTime {
                    monotonic: Some(EventMonotonic {
                        wall: Some(Duration {
                            secs: Some(8),
                            nanos: Some(2000),
                        }),
                        ..Default::default()
                    }),
                    ..Default::default()
                },
            },
            AndroidEvent {
                action: Some("Exit".to_string()),
                thread_id: 1,
                method_id: 1,
                time: EventTime {
                    monotonic: Some(EventMonotonic {
                        wall: Some(Duration {
                            secs: Some(11),
                            nanos: Some(2000),
                        }),
                        ..Default::default()
                    }),
                    ..Default::default()
                },
            },
            AndroidEvent {
                action: Some("Enter".to_string()),
                thread_id: 2,
                method_id: 1,
                time: EventTime {
                    monotonic: Some(EventMonotonic {
                        wall: Some(Duration {
                            secs: Some(1),
                            nanos: Some(3000),
                        }),
                        ..Default::default()
                    }),
                    ..Default::default()
                },
            },
            AndroidEvent {
                action: Some("Enter".to_string()),
                thread_id: 2,
                method_id: 2,
                time: EventTime {
                    monotonic: Some(EventMonotonic {
                        wall: Some(Duration {
                            secs: Some(2),
                            nanos: Some(3000),
                        }),
                        ..Default::default()
                    }),
                    ..Default::default()
                },
            },
            AndroidEvent {
                action: Some("Exit".to_string()),
                thread_id: 2,
                method_id: 2,
                time: EventTime {
                    monotonic: Some(EventMonotonic {
                        wall: Some(Duration {
                            secs: Some(2),
                            nanos: Some(3000),
                        }),
                        ..Default::default()
                    }),
                    ..Default::default()
                },
            },
            AndroidEvent {
                action: Some("Exit".to_string()),
                thread_id: 2,
                method_id: 1,
                time: EventTime {
                    monotonic: Some(EventMonotonic {
                        wall: Some(Duration {
                            secs: Some(3),
                            nanos: Some(3000),
                        }),
                        ..Default::default()
                    }),
                    ..Default::default()
                },
            },
            ],
            start_time: 398635355383000,
            threads: vec![
                AndroidThread {
                    id: 1,
                    name: "main".to_string(),
                },
                AndroidThread {
                    id: 2,
                    name: "background".to_string(),
                },
            ],
            ..Default::default()
        },
    }];
    for mut test_case in test_cases {
        test_case.trace.fix_samples_time();
        assert_eq!(
            test_case.trace, test_case.want,
            "{} test failed.",
            test_case.name
        )
    }
}

#[test]
fn fix_samples_time_leaves_monotonic_clocks_alone() {
    for clock in [Clock::Global, Clock::Cpu] {
        let mut android = trace(clock, vec![timed(1, 5, 0), timed(1, 3, 0), timed(1, 4, 0)]);
        android.fix_samples_time();
        assert_eq!(
            android,
            trace(clock, vec![timed(1, 5, 0), timed(1, 3, 0), timed(1, 4, 0)])
        );
    }
}

#[test]
fn fix_samples_time_repairs_every_other_clock() {
    for clock in [Clock::Wall, Clock::Dual, Clock::Unset] {
        let mut android = trace(clock, vec![timed(1, 5, 0), timed(1, 3, 0)]);
        android.fix_samples_time();
        assert_eq!(android, trace(clock, vec![timed(1, 5, 0), timed(1, 6, 0)]));
    }
}

#[test]
fn fix_samples_time_without_regression_changes_nothing() {
    // seconds and nanoseconds stay as they are written, also where the
    // nanoseconds hold more than a second
    let events = || vec![timed(1, 1, 2_500_000_000), timed(2, 0, 7), timed(1, 3, 500_000_000)];
    let mut android = trace(Clock::Wall, events());
    android.fix_samples_time();
    assert_eq!(android, trace(Clock::Wall, events()));
}

#[test]
fn fix_samples_time_keeps_the_distance_to_the_latest_event() {
    // thread 1: 10s, 4s (behind both: 11s), 6s (2s after the latest: 13s),
    // 20s (14s after the latest: 27s)
    let mut android = trace(
        Clock::Wall,
        vec![timed(1, 10, 0), timed(1, 4, 0), timed(1, 6, 0), timed(1, 20, 0)],
    );
    android.fix_samples_time();
    let times: Vec<Option<u64>> = android.events.iter().map(wall_ns).collect();
    assert_eq!(
        times,
        vec![
            Some(10_000_000_000),
            Some(11_000_000_000),
            Some(13_000_000_000),
            Some(27_000_000_000)
        ]
    );
}

#[test]
fn fix_samples_time_leaves_threads_in_order_as_they_are() {
    // thread 1 regresses at index 2, thread 2 never does
    let mut android = trace(
        Clock::Wall,
        vec![
            timed(2, 1, 0),
            timed(1, 5, 0),
            timed(1, 3, 0),
            timed(2, 2, 500),
            timed(3, 0, 9),
            timed(2, 2, 500),
            timed(1, 3, 1),
            timed(2, 8, 0),
        ],
    );
    android.fix_samples_time();
    let times: Vec<Option<u64>> = android.events.iter().map(wall_ns).collect();
    assert_eq!(
        times,
        vec![
            Some(1_000_000_000),
            Some(5_000_000_000),
            Some(6_000_000_000),
            Some(2_000_000_500),
            Some(9),
            Some(2_000_000_500),
            Some(6_000_000_001),
            Some(8_000_000_000),
        ]
    );
    // after the repair no thread runs backward
    for i in 0..android.events.len() {
        for j in i + 1..android.events.len() {
            if android.events[i].thread_id == android.events[j].thread_id {
                assert!(wall_ns(&android.events[i]) <= wall_ns(&android.events[j]));
            }
        }
    }
}

#[test]
fn fix_samples_time_passes_over_events_without_a_wall_time() {
    let untimed = |thread_id: u64| AndroidEvent {
        action: Some("Enter".to_string()),
        thread_id,
        method_id: 4,
        time: EventTime {
            global: Some(Duration {
                secs: Some(1),
                nanos: Some(1),
            }),
            monotonic: Some(EventMonotonic {
                wall: Some(Duration {
                    secs: Some(1),
                    nanos: None,
                }),
                cpu: None,
            }),
        },
    };
    let mut android = trace(
        Clock::Wall,
        vec![timed(1, 5, 0), untimed(1), timed(1, 3, 0), untimed(1)],
    );
    android.fix_samples_time();
    assert_eq!(
        android,
        trace(
            Clock::Wall,
            vec![timed(1, 5, 0), untimed(1), timed(1, 6, 0), untimed(1)]
        )
    );
}

#[test]
fn try_fix_samples_time_refuses_times_that_do_not_fit() {
    let events = || vec![timed(1, 5, 0), timed(1, u64::MAX, 0)];
    let mut android = trace(Clock::Wall, events());
    assert!(!android.try_fix_samples_time());
    assert_eq!(android, trace(Clock::Wall, events()));

    // the raw times fit, the repaired one does not
    let top = u64::MAX / 1_000_000_000;
    let events = || vec![timed(1, top, 0), timed(1, 3, 0)];
    let mut android = trace(Clock::Wall, events());
    assert!(!android.try_fix_samples_time());
    assert_eq!(android, trace(Clock::Wall, events()));

    let mut android = trace(Clock::Cpu, events());
    assert!(android.try_fix_samples_time());
    assert_eq!(android, trace(Clock::Cpu, events()));

    let mut android = trace(Clock::Wall, vec![timed(1, 5, 0), timed(1, 3, 0)]);
    assert!(android.try_fix_samples_time());
    assert_eq!(android, trace(Clock::Wall, vec![timed(1, 5, 0), timed(1, 6, 0)]));
}

#[test]
fn adjusted_time_formula() {
    // behind the highest and the latest time: one second after the highest
    assert_eq!(get_adjusted_time(7_000_002_000, 7_000_002_000, 6_000_003_000), 8_000_002_000);
    // not behind the latest: the same distance after the highest
    assert_eq!(get_adjusted_time(8_000_002_000, 6_000_003_000, 9_000_003_000), 11_000_002_000);
    assert_eq!(get_adjusted_time(8_000_002_000, 6_000_003_000, 6_000_003_000), 8_000_002_000);
    assert_eq!(get_adjusted_time(0, 0, 42), 42);
    assert_eq!(checked_adjusted_time(10, 5, 7), Some(12));
    assert_eq!(checked_adjusted_time(u64::MAX, 5, 4), None);
    assert_eq!(checked_adjusted_time(u64::MAX - 1, 5, 6), Some(u64::MAX));
    assert_eq!(checked_adjusted_time(u64::MAX - 1, 5, 7), None);
}
