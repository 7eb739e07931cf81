use std::sync::mpsc::channel;

use choreo_optimize::progress::{
    emit_diagnostic, emit_trajectory, send_progress, trajectory_update, DriveType,
    HandledLocalProgressUpdate, LocalProgressUpdate, Trajectory,
};

fn trajectory(sample_type: Option<DriveType>) -> Trajectory<u32> {
    Trajectory { sample_type, samples: vec![1, 2, 3] }
}

#[test]
fn trajectory_update_follows_the_drive_type() {
    match trajectory_update(&trajectory(Some(DriveType::Swerve))) {
        Some(LocalProgressUpdate::SwerveTrajectory { update }) => assert_eq!(update, vec![1, 2, 3]),
        other => panic!("unexpected {other:?}"),
    }
    match trajectory_update(&trajectory(Some(DriveType::Differential))) {
        Some(LocalProgressUpdate::DifferentialTrajectory { update }) => assert_eq!(update, vec![1, 2, 3]),
        other => panic!("unexpected {other:?}"),
    }
    assert!(trajectory_update(&trajectory(None)).is_none());
}

#[test]
fn handled_tags_the_update() {
    let h: HandledLocalProgressUpdate<u32> =
        LocalProgressUpdate::DiagnosticText { update: "hi".to_string() }.handled(7);
    assert_eq!(h.handle, 7);
    assert!(matches!(h.update, LocalProgressUpdate::DiagnosticText { ref update } if update == "hi"));
}

#[test]
fn send_progress_without_sender_delivers_nothing() {
    let update: LocalProgressUpdate<u32> = LocalProgressUpdate::DiagnosticText { update: "x".to_string() };
    match send_progress(None, update, 1) {
        Err(m) => {
            assert_eq!(m.handle, 1);
            assert!(matches!(m.update, LocalProgressUpdate::DiagnosticText { ref update } if update == "x"));
        }
        Ok(()) => panic!("delivered without a channel"),
    }
}

#[test]
fn send_progress_delivers_the_tagged_update() {
    let (tx, rx) = channel::<HandledLocalProgressUpdate<u32>>();
    assert!(send_progress(Some(&tx), LocalProgressUpdate::SwerveTrajectory { update: vec![4] }, 3).is_ok());
    let got = rx.try_recv().unwrap();
    assert_eq!(got.handle, 3);
    assert!(matches!(got.update, LocalProgressUpdate::SwerveTrajectory { ref update } if update == &vec![4]));
}

#[test]
fn send_progress_reports_a_closed_channel() {
    let (tx, rx) = channel::<HandledLocalProgressUpdate<u32>>();
    drop(rx);
    match send_progress(Some(&tx), LocalProgressUpdate::DiagnosticText { update: "x".to_string() }, 3) {
        Err(m) => assert_eq!(m.handle, 3),
        Ok(()) => panic!("delivered to a closed channel"),
    }
}

#[test]
fn emit_diagnostic_sends_text() {
    let (tx, rx) = channel::<HandledLocalProgressUpdate<u32>>();
    assert!(emit_diagnostic(Some(&tx), "Optimization complete".to_string(), 5).is_ok());
    let got = rx.try_recv().unwrap();
    assert_eq!(got.handle, 5);
    assert!(matches!(got.update, LocalProgressUpdate::DiagnosticText { ref update } if update == "Optimization complete"));
}

#[test]
fn emit_trajectory_sends_samples_of_known_drive_type() {
    let (tx, rx) = channel::<HandledLocalProgressUpdate<u32>>();
    assert!(matches!(emit_trajectory(Some(&tx), &trajectory(Some(DriveType::Differential)), 9), Some(Ok(()))));
    let got = rx.try_recv().unwrap();
    assert_eq!(got.handle, 9);
    assert!(matches!(got.update, LocalProgressUpdate::DifferentialTrajectory { ref update } if update == &vec![1, 2, 3]));
}

#[test]
fn emit_trajectory_skips_unknown_drive_type() {
    let (tx, rx) = channel::<HandledLocalProgressUpdate<u32>>();
    assert!(emit_trajectory(Some(&tx), &trajectory(None), 9).is_none());
    assert!(rx.try_recv().is_err());
}

#[test]
fn emit_trajectory_without_sender_gives_the_message_back() {
    match emit_trajectory(None, &trajectory(Some(DriveType::Swerve)), 2) {
        Some(Err(m)) => {
            assert_eq!(m.handle, 2);
            assert!(matches!(m.update, LocalProgressUpdate::SwerveTrajectory { ref update } if update == &vec![1, 2, 3]));
        }
        _ => panic!("expected the undelivered message"),
    }
}
