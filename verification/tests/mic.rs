use timeagent::mic::{capture_active, mic_in_use, monitor_indices, MicSnapshot, SourceInfo, SourceOutputInfo};

fn src(index: u32, monitor_of_sink: Option<u32>, name: Option<&str>) -> SourceInfo {
    SourceInfo { index, monitor_of_sink, name: name.map(|n| n.to_string()) }
}

#[test]
fn monitors_are_found_by_sink_or_name() {
    let sources = vec![
        src(1, None, Some("alsa_input.usb-mic")),
        src(2, Some(7), Some("whatever")),
        src(3, None, Some("alsa_output.speakers.monitor")),
        src(4, None, None),
    ];
    assert_eq!(monitor_indices(&sources), vec![2, 3]);
}

#[test]
fn live_capture_of_a_real_input_counts() {
    let outputs = vec![
        SourceOutputInfo { source: 2, corked: false },
        SourceOutputInfo { source: 1, corked: true },
    ];
    assert!(!capture_active(&outputs, &vec![2]));
    let outputs2 = vec![SourceOutputInfo { source: 1, corked: false }];
    assert!(capture_active(&outputs2, &vec![2]));
    assert!(!capture_active(&vec![], &vec![]));
}

#[test]
fn mic_in_use_from_query() {
    let snap = MicSnapshot {
        sources: vec![src(1, None, Some("mic")), src(2, None, Some("out.monitor"))],
        outputs: vec![SourceOutputInfo { source: 2, corked: false }],
    };
    assert!(!mic_in_use(Ok(snap)));
    let snap2 = MicSnapshot {
        sources: vec![src(1, None, Some("mic")), src(2, None, Some("out.monitor"))],
        outputs: vec![SourceOutputInfo { source: 1, corked: false }],
    };
    assert!(mic_in_use(Ok(snap2)));
    assert!(!mic_in_use(Err("no context".to_string())));
}
