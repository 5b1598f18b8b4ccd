use clockify_to_time_sheet::clockify::Task;
use clockify_to_time_sheet::clockify::TimeEntry;
use clockify_to_time_sheet::clockify::TimeInterval;
use clockify_to_time_sheet::timestamp::Timestamp;
use clockify_to_time_sheet::transform::convert_time_entries;
use clockify_to_time_sheet::transform::merge_time_sheet_entries;
use clockify_to_time_sheet::transform::transform_time_entries;
use clockify_to_time_sheet::transform::TimeSheetEntry;

fn at(year: u32, month: u32, day: u32, hour: u32, minute: u32, second: u32) -> Timestamp {
    Timestamp { year, month, day, hour, minute, second }
}

#[test]
fn test_convert_simple_entries_use_task_name_reverted() {
    let time_entries = vec![
        TimeEntry {
            description: "Entry 2".to_string(),
            billable: true,
            task_id: Some("ghijkl".to_string()),
            time_interval: TimeInterval {
                start: at(2022, 10, 1, 14, 45, 0),
                end: at(2022, 10, 1, 15, 15, 15),
            },
            task: Some(Task {
                id: "ghijkl".to_string(),
                name: "Task 2".to_string(),
            }),
        },
        TimeEntry {
            description: "Entry 1".to_string(),
            billable: true,
            task_id: Some("abcdef".to_string()),
            time_interval: TimeInterval {
                start: at(2022, 10, 1, 12, 10, 0),
                end: at(2022, 10, 1, 12, 25, 30),
            },
            task: Some(Task {
                id: "abcdef".to_string(),
                name: "Task 1".to_string(),
            }),
        },
    ];
    let expected_result = vec![
        TimeSheetEntry {
            description: "Task 1".to_string(),
            start: time_entries[1].time_interval.start,
            end: time_entries[1].time_interval.end,
            break_: 0,
        },
        TimeSheetEntry {
            description: "Task 2".to_string(),
            start: time_entries[0].time_interval.start,
            end: time_entries[0].time_interval.end,
            break_: 0,
        },
    ];
    let result = convert_time_entries(time_entries);
    assert_eq!(result, expected_result);
}

#[test]
fn test_convert_missing_task_uses_description() {
    let time_entries = vec![TimeEntry {
        description: "Entry 1".to_string(),
        billable: true,
        task_id: None,
        time_interval: TimeInterval {
            start: at(2022, 10, 1, 12, 10, 0),
            end: at(2022, 10, 1, 12, 25, 30),
        },
        task: None,
    }];
    let expected_result = vec![TimeSheetEntry {
        description: "Entry 1".to_string(),
        start: time_entries[0].time_interval.start,
        end: time_entries[0].time_interval.end,
        break_: 0,
    }];
    let result = convert_time_entries(time_entries);
    assert_eq!(result, expected_result);
}

#[test]
fn test_merge_subsequent_time_sheet_entries_of_same_task() {
    let time_sheet_entries = vec![
        TimeSheetEntry {
            description: "Task 1".to_string(),
            start: at(2022, 10, 1, 12, 10, 0),
            end: at(2022, 10, 1, 12, 25, 30),
            break_: 0,
        },
        TimeSheetEntry {
            description: "Task 1".to_string(),
            start: at(2022, 10, 1, 14, 45, 0),
            end: at(2022, 10, 1, 15, 15, 15),
            break_: 0,
        },
    ];
    let expected_result = vec![TimeSheetEntry {
        description: "Task 1".to_string(),
        // Start of first entry.
        start: at(2022, 10, 1, 12, 10, 0),
        // End of last entry.
        end: at(2022, 10, 1, 15, 15, 15),
        // Break from 12:25:30 to 14:45:00 -> 2:19:30 = 8370 sec.
        break_: 8370,
    }];
    let result = merge_time_sheet_entries(time_sheet_entries);
    assert_eq!(result, expected_result);
}

#[test]
fn test_merge_keep_time_sheet_entries_of_alternating_tasks() {
    let time_sheet_entries = vec![
        TimeSheetEntry {
            description: "Task 1".to_string(),
            start: at(2022, 10, 1, 12, 10, 0),
            end: at(2022, 10, 1, 12, 25, 30),
            break_: 0,
        },
        TimeSheetEntry {
            description: "Task 2".to_string(),
            start: at(2022, 10, 1, 13, 0, 0),
            end: at(2022, 10, 1, 13, 30, 0),
            break_: 0,
        },
        TimeSheetEntry {
            description: "Task 1".to_string(),
            start: at(2022, 10, 1, 14, 45, 0),
            end: at(2022, 10, 1, 15, 15, 15),
            break_: 0,
        },
    ];
    let expected_result = time_sheet_entries.clone();
    let result = merge_time_sheet_entries(time_sheet_entries);
    assert_eq!(result, expected_result);
}

#[test]
fn test_merge_keep_time_sheet_entries_of_different_days() {
    let time_sheet_entries = vec![
        TimeSheetEntry {
            description: "Task 1".to_string(),
            start: at(2022, 10, 1, 12, 10, 0),
            end: at(2022, 10, 1, 12, 25, 30),
            break_: 0,
        },
        TimeSheetEntry {
            description: "Task 1".to_string(),
            start: at(2022, 10, 2, 14, 45, 0),
            end: at(2022, 10, 2, 15, 15, 15),
            break_: 0,
        },
    ];
    let expected_result = time_sheet_entries.clone();
    let result = merge_time_sheet_entries(time_sheet_entries);
    assert_eq!(result, expected_result);
}

#[test]
fn test_merge_subsequent_time_sheet_entries_of_same_task_multiple_breaks() {
    let time_sheet_entries = vec![
        TimeSheetEntry {
            description: "Task 1".to_string(),
            start: at(2022, 10, 1, 12, 10, 0),
            end: at(2022, 10, 1, 12, 25, 30),
            break_: 0,
        },
        TimeSheetEntry {
            description: "Task 1".to_string(),
            start: at(2022, 10, 1, 14, 45, 0),
            end: at(2022, 10, 1, 15, 15, 15),
            break_: 0,
        },
        TimeSheetEntry {
            description: "Task 1".to_string(),
            start: at(2022, 10, 1, 16, 0, 0),
            end: at(2022, 10, 1, 16, 15, 0),
            break_: 0,
        },
    ];
    let expected_result = vec![TimeSheetEntry {
        description: "Task 1".to_string(),
        // Start of first entry.
        start: at(2022, 10, 1, 12, 10, 0),
        // End of last entry.
        end: at(2022, 10, 1, 16, 15, 0),
        // Break from 12:25:30 to 14:45:00 -> 2:19:30 = 8370 sec.
        // Break from 15:15:15 to 16:00:00 -> 0:44:45 = 2685 sec.
        break_: 8370 + 2685,
    }];
    let result = merge_time_sheet_entries(time_sheet_entries);
    assert_eq!(result, expected_result);
}

#[test]
fn test_transform_complex_time_entries_example() {
    let time_entries = vec![
        TimeEntry {
            description: "Entry 6".to_string(),
            billable: true,
            task_id: Some("abcdef".to_string()),
            time_interval: TimeInterval {
                start: at(2022, 10, 1, 16, 0, 0),
                end: at(2022, 10, 1, 17, 0, 0),
            },
            task: Some(Task {
                id: "abcdef".to_string(),
                name: "Task 1".to_string(),
            }),
        },
        TimeEntry {
            description: "Entry 5".to_string(),
            billable: true,
            task_id: None,
            time_interval: TimeInterval {
                start: at(2022, 10, 1, 15, 50, 0),
                end: at(2022, 10, 1, 15, 55, 0),
            },
            task: None,
        },
        TimeEntry {
            description: "Entry 5".to_string(),
            billable: true,
            task_id: None,
            time_interval: TimeInterval {
                start: at(2022, 10, 1, 15, 30, 0),
                end: at(2022, 10, 1, 15, 45, 0),
            },
            task: None,
        },
        TimeEntry {
            description: "Entry 4".to_string(),
            billable: true,
            task_id: Some("ghijkl".to_string()),
            time_interval: TimeInterval {
                start: at(2022, 10, 1, 15, 5, 0),
                end: at(2022, 10, 1, 15, 10, 30),
            },
            task: Some(Task {
                id: "ghijkl".to_string(),
                name: "Task 2".to_string(),
            }),
        },
        TimeEntry {
            description: "Entry 3".to_string(),
            billable: true,
            task_id: Some("abcdef".to_string()),
            time_interval: TimeInterval {
                start: at(2022, 10, 1, 14, 45, 0),
                end: at(2022, 10, 1, 15, 0, 15),
            },
            task: Some(Task {
                id: "abcdef".to_string(),
                name: "Task 1".to_string(),
            }),
        },
        TimeEntry {
            description: "Entry 2".to_string(),
            billable: true,
            task_id: Some("abcdef".to_string()),
            time_interval: TimeInterval {
                start: at(2022, 10, 1, 12, 10, 0),
                end: at(2022, 10, 1, 12, 25, 30),
            },
            task: Some(Task {
                id: "abcdef".to_string(),
                name: "Task 1".to_string(),
            }),
        },
        TimeEntry {
            description: "Entry 1".to_string(),
            billable: true,
            task_id: Some("abcdef".to_string()),
            time_interval: TimeInterval {
                start: at(2022, 9, 30, 12, 10, 0),
                end: at(2022, 9, 30, 12, 25, 30),
            },
            task: Some(Task {
                id: "abcdef".to_string(),
                name: "Task 1".to_string(),
            }),
        },
    ];
    let expected_result = vec![
        TimeSheetEntry {
            description: "Task 1".to_string(),
            start: at(2022, 9, 30, 12, 10, 0),
            end: at(2022, 9, 30, 12, 25, 30),
            break_: 0,
        },
        TimeSheetEntry {
            description: "Task 1".to_string(),
            start: at(2022, 10, 1, 12, 10, 0),
            end: at(2022, 10, 1, 15, 0, 15),
            // Break from 12:25:30 to 14:45:00 -> 2:19:30 = 8370 sec.
            break_: 8370,
        },
        TimeSheetEntry {
            description: "Task 2".to_string(),
            start: at(2022, 10, 1, 15, 5, 0),
            end: at(2022, 10, 1, 15, 10, 30),
            break_: 0,
        },
        TimeSheetEntry {
            description: "Entry 5".to_string(),
            start: at(2022, 10, 1, 15, 30, 0),
            end: at(2022, 10, 1, 15, 55, 0),
            // Break from 15:45:00 to 15:50:00 -> 0:05:00 = 300 sec.
            break_: 300,
        },
        TimeSheetEntry {
            description: "Task 1".to_string(),
            start: at(2022, 10, 1, 16, 0, 0),
            end: at(2022, 10, 1, 17, 0, 0),
            break_: 0,
        },
    ];
    let result = transform_time_entries(time_entries);
    assert_eq!(result, expected_result);
}

#[test]
fn test_transform_empty_input() {
    let result = transform_time_entries(Vec::new());
    assert_eq!(result, Vec::new());
}

#[test]
fn test_transform_single_entry_has_no_break() {
    let time_entries = vec![TimeEntry {
        description: "Entry 1".to_string(),
        billable: true,
        task_id: None,
        time_interval: TimeInterval {
            start: at(2022, 10, 1, 9, 0, 0),
            end: at(2022, 10, 1, 10, 30, 0),
        },
        task: None,
    }];
    let result = transform_time_entries(time_entries);
    assert_eq!(
        result,
        vec![TimeSheetEntry {
            description: "Entry 1".to_string(),
            start: at(2022, 10, 1, 9, 0, 0),
            end: at(2022, 10, 1, 10, 30, 0),
            break_: 0,
        }]
    );
}

#[test]
fn test_merge_back_to_back_entries_zero_break() {
    let time_sheet_entries = vec![
        TimeSheetEntry {
            description: "Task 1".to_string(),
            start: at(2022, 10, 1, 9, 0, 0),
            end: at(2022, 10, 1, 10, 0, 0),
            break_: 0,
        },
        TimeSheetEntry {
            description: "Task 1".to_string(),
            start: at(2022, 10, 1, 10, 0, 0),
            end: at(2022, 10, 1, 11, 0, 0),
            break_: 0,
        },
    ];
    let result = merge_time_sheet_entries(time_sheet_entries);
    assert_eq!(
        result,
        vec![TimeSheetEntry {
            description: "Task 1".to_string(),
            start: at(2022, 10, 1, 9, 0, 0),
            end: at(2022, 10, 1, 11, 0, 0),
            break_: 0,
        }]
    );
}
