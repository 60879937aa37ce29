use vidflow::status::DownloadStatus;
use vidflow::task::DownloadTask;

const ALL: [DownloadStatus; 8] = [DownloadStatus::Queued, DownloadStatus::Preparing, DownloadStatus::Downloading, DownloadStatus::Paused, DownloadStatus::Merging, DownloadStatus::Completed, DownloadStatus::Error, DownloadStatus::Cancelled];

fn expected(from: DownloadStatus, to: DownloadStatus) -> bool {
    matches!(
        (from, to),
        (DownloadStatus::Queued, DownloadStatus::Preparing)
            | (DownloadStatus::Queued, DownloadStatus::Cancelled)
            | (DownloadStatus::Preparing, DownloadStatus::Downloading)
            | (DownloadStatus::Preparing, DownloadStatus::Error)
            | (DownloadStatus::Preparing, DownloadStatus::Cancelled)
            | (DownloadStatus::Downloading, DownloadStatus::Merging)
            | (DownloadStatus::Downloading, DownloadStatus::Paused)
            | (DownloadStatus::Downloading, DownloadStatus::Completed)
            | (DownloadStatus::Downloading, DownloadStatus::Error)
            | (DownloadStatus::Downloading, DownloadStatus::Cancelled)
            | (DownloadStatus::Paused, DownloadStatus::Downloading)
            | (DownloadStatus::Paused, DownloadStatus::Cancelled)
            | (DownloadStatus::Merging, DownloadStatus::Completed)
            | (DownloadStatus::Merging, DownloadStatus::Error)
            | (DownloadStatus::Merging, DownloadStatus::Cancelled)
    )
}

#[test]
fn transition_table_is_exact() {
    for a in ALL {
        for b in ALL {
            assert_eq!(a.can_transition_to(&b), expected(a, b), "{:?} -> {:?}", a, b);
        }
    }
}

#[test]
fn terminal_states_admit_nothing() {
    for a in [DownloadStatus::Completed, DownloadStatus::Error, DownloadStatus::Cancelled] {
        assert!(a.is_terminal());
        assert!(!a.is_active());
        for b in ALL {
            assert!(!a.can_transition_to(&b));
        }
    }
}

#[test]
fn active_set_includes_paused() {
    let active: Vec<DownloadStatus> = ALL.iter().copied().filter(|s| s.is_active()).collect();
    assert_eq!(active, vec![DownloadStatus::Preparing, DownloadStatus::Downloading, DownloadStatus::Paused, DownloadStatus::Merging]);
}

#[test]
fn transition_refuses_absent_edge_and_allows_self_loop() {
    let mut t = DownloadTask::new("a".to_string(), "u".to_string(), "t".to_string());
    assert!(!t.transition(DownloadStatus::Downloading));
    assert_eq!(t.status, DownloadStatus::Queued);
    assert!(t.transition(DownloadStatus::Queued));
    assert!(t.transition(DownloadStatus::Preparing));
    assert!(t.transition(DownloadStatus::Downloading));
    assert!(t.transition(DownloadStatus::Completed));
    assert!(!t.transition(DownloadStatus::Downloading));
    assert_eq!(t.status, DownloadStatus::Completed);
}
