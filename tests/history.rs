use krill::history::{command_history, CommandHistoryCriteria, CommandHistoryRecord};
use krill::store::KeyStoreError;

fn record(seq: u64, time: i64) -> CommandHistoryRecord {
    CommandHistoryRecord {
        actor: "krill".to_string(),
        time,
        handle: "ca-1".to_string(),
        version: seq,
        sequence: seq,
        summary: format!("command {}", seq),
    }
}

fn five() -> Vec<Option<CommandHistoryRecord>> {
    (1..=5).map(|s| Some(record(s, 100 * s as i64))).collect()
}

fn crit(offset: usize, rows: Option<usize>) -> CommandHistoryCriteria {
    CommandHistoryCriteria { before: None, after: None, offset, rows }
}

#[test]
fn history_all() {
    let h = command_history(&five(), &crit(0, None)).unwrap();
    assert_eq!(h.total, 5);
    assert_eq!(h.offset, 0);
    assert_eq!(h.commands.len(), 5);
}

#[test]
fn history_page() {
    let h = command_history(&five(), &crit(2, Some(2))).unwrap();
    assert_eq!(h.total, 5);
    assert_eq!(h.commands.len(), 2);
    assert_eq!(h.commands[0].sequence, 3);
    assert_eq!(h.commands[1].sequence, 4);
}

#[test]
fn history_offset_past_end() {
    assert!(matches!(command_history(&five(), &crit(10, None)), Err(KeyStoreError::CommandOffSetError)));
    assert!(matches!(command_history(&five(), &crit(5, None)), Err(KeyStoreError::CommandOffSetError)));
}

#[test]
fn history_missing_command() {
    let mut recs = five();
    recs[3] = None;
    assert!(matches!(command_history(&recs, &crit(0, None)), Err(KeyStoreError::CommandNotFound)));
}

#[test]
fn history_filtered_by_time() {
    let c = CommandHistoryCriteria { before: Some(450), after: Some(150), offset: 0, rows: None };
    let h = command_history(&five(), &c).unwrap();
    assert_eq!(h.total, 3);
    assert_eq!(h.commands[0].sequence, 2);
    assert_eq!(h.commands[2].sequence, 4);
}
