use clipvault::open::{OpenAction, OpenEvent, OpenStage};

fn run(events: &[OpenEvent]) -> (OpenStage, Vec<OpenAction>) {
    let mut stage = OpenStage::start();
    let mut actions = vec![stage.action()];
    for e in events {
        stage = stage.advance(*e);
        actions.push(stage.action());
    }
    (stage, actions)
}

#[test]
fn missing_file_is_bootstrapped_then_opened() {
    let (stage, actions) = run(&[
        OpenEvent::FileChecked { exists: false },
        OpenEvent::Bootstrapped,
        OpenEvent::OpenedReadOnly,
        OpenEvent::TableChecked { exists: true },
    ]);
    assert_eq!(stage, OpenStage::Ready);
    assert_eq!(
        actions,
        vec![
            OpenAction::CheckFile,
            OpenAction::Bootstrap,
            OpenAction::OpenReadOnly,
            OpenAction::CheckTable,
            OpenAction::Finish,
        ]
    );
}

#[test]
fn current_file_is_opened_without_bootstrap() {
    let (stage, actions) = run(&[
        OpenEvent::FileChecked { exists: true },
        OpenEvent::OpenedReadOnly,
        OpenEvent::TableChecked { exists: true },
    ]);
    assert_eq!(stage, OpenStage::Ready);
    assert!(!actions.contains(&OpenAction::Bootstrap));
}

#[test]
fn schemaless_file_is_bootstrapped_once_and_reopened() {
    let (stage, actions) = run(&[
        OpenEvent::FileChecked { exists: true },
        OpenEvent::OpenedReadOnly,
        OpenEvent::TableChecked { exists: false },
        OpenEvent::Bootstrapped,
        OpenEvent::OpenedReadOnly,
        OpenEvent::TableChecked { exists: true },
    ]);
    assert_eq!(stage, OpenStage::Ready);
    assert_eq!(actions.iter().filter(|a| **a == OpenAction::Bootstrap).count(), 1);
    assert_eq!(actions[3], OpenAction::Bootstrap);
    assert_eq!(actions[4], OpenAction::OpenReadOnly);
}

#[test]
fn table_missing_after_bootstrap_is_corruption() {
    let (stage, actions) = run(&[
        OpenEvent::FileChecked { exists: false },
        OpenEvent::Bootstrapped,
        OpenEvent::OpenedReadOnly,
        OpenEvent::TableChecked { exists: false },
    ]);
    assert_eq!(stage, OpenStage::Corrupt);
    assert_eq!(actions.last(), Some(&OpenAction::FailSchema));
}

#[test]
fn unrelated_event_leaves_stage_unchanged() {
    let stage = OpenStage::start();
    assert_eq!(stage.advance(OpenEvent::OpenedReadOnly), OpenStage::Start);
    let ready = OpenStage::Ready;
    assert_eq!(ready.advance(OpenEvent::Bootstrapped), OpenStage::Ready);
}
