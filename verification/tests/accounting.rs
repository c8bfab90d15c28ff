use os_core::config::MAX_SYSCALL_NUM;
use os_core::syscall::buffer::{copy_to_segments, push_le_bytes};
use os_core::syscall::process::{
    sys_get_time, sys_task_info, task_info, TimeVal, TASK_INFO_BYTES, TIME_VAL_BYTES,
};
use os_core::task::task::{TaskControlBlock, TaskStatus};

fn flat(segments: &Vec<Vec<u8>>) -> Vec<u8> {
    segments.iter().flat_map(|segment| segment.iter().copied()).collect()
}

fn lengths(segments: &Vec<Vec<u8>>) -> Vec<usize> {
    segments.iter().map(|segment| segment.len()).collect()
}

#[test]
fn little_endian_bytes_start_with_the_lowest() {
    let mut out: Vec<u8> = vec![0xaa];
    push_le_bytes(&mut out, 0x0102_0304_0506_0708, 8);
    assert_eq!(out, vec![0xaa, 8, 7, 6, 5, 4, 3, 2, 1]);
    let mut short: Vec<u8> = Vec::new();
    push_le_bytes(&mut short, 0x0102_0304_0506_0708, 3);
    assert_eq!(short, vec![8, 7, 6]);
    let mut long: Vec<u8> = Vec::new();
    push_le_bytes(&mut long, 0x1ff, 10);
    assert_eq!(long, vec![0xff, 1, 0, 0, 0, 0, 0, 0, 0, 0]);
    let mut none: Vec<u8> = Vec::new();
    push_le_bytes(&mut none, 77, 0);
    assert!(none.is_empty());
}

#[test]
fn microseconds_split_into_seconds_and_microseconds() {
    assert_eq!(TimeVal::from_micros(0), TimeVal { sec: 0, usec: 0 });
    assert_eq!(TimeVal::from_micros(999_999), TimeVal { sec: 0, usec: 999_999 });
    assert_eq!(TimeVal::from_micros(1_000_000), TimeVal { sec: 1, usec: 0 });
    assert_eq!(TimeVal::from_micros(1_234_567), TimeVal { sec: 1, usec: 234_567 });
    assert_eq!(TimeVal::from_micros(86_400_000_001), TimeVal { sec: 86_400, usec: 1 });
}

#[test]
fn time_never_runs_backwards() {
    let readings: [usize; 7] = [0, 1, 999_999, 1_000_000, 1_000_001, 5_999_999, 6_000_000];
    for pair in readings.windows(2) {
        let earlier = TimeVal::from_micros(pair[0]);
        let later = TimeVal::from_micros(pair[1]);
        assert!((earlier.sec, earlier.usec) <= (later.sec, later.usec));
    }
    let same = TimeVal::from_micros(42);
    assert_eq!(same, TimeVal::from_micros(42));
}

#[test]
fn a_time_val_is_sixteen_bytes() {
    assert_eq!(TIME_VAL_BYTES, 16);
    let bytes = TimeVal { sec: 0x0102, usec: 0x0a0b0c }.to_bytes();
    assert_eq!(bytes, vec![2, 1, 0, 0, 0, 0, 0, 0, 0x0c, 0x0b, 0x0a, 0, 0, 0, 0, 0]);
    assert_eq!(bytes.len(), TIME_VAL_BYTES);
}

#[test]
fn get_time_writes_across_two_pages() {
    // The buffer starts five bytes before the end of a page.
    let mut ts: Vec<Vec<u8>> = vec![vec![0xee; 5], vec![0xee; 11]];
    assert_eq!(sys_get_time(3_000_007, &mut ts, 0), 0);
    assert_eq!(ts[0], vec![3, 0, 0, 0, 0]);
    assert_eq!(ts[1], vec![0, 0, 0, 7, 0, 0, 0, 0, 0, 0, 0]);
    assert_eq!(flat(&ts), TimeVal { sec: 3, usec: 7 }.to_bytes());
    // In one piece the bytes are the same.
    let mut whole: Vec<Vec<u8>> = vec![vec![0; 16]];
    assert_eq!(sys_get_time(3_000_007, &mut whole, 99), 0);
    assert_eq!(flat(&whole), flat(&ts));
}

#[test]
fn get_time_twice_gives_times_in_order() {
    let mut first: Vec<Vec<u8>> = vec![vec![0; 16]];
    let mut second: Vec<Vec<u8>> = vec![vec![0; 16]];
    assert_eq!(sys_get_time(1_999_999, &mut first, 0), 0);
    assert_eq!(sys_get_time(2_000_000, &mut second, 0), 0);
    let read = |bytes: &Vec<u8>| {
        let mut sec = [0u8; 8];
        let mut usec = [0u8; 8];
        sec.copy_from_slice(&bytes[0..8]);
        usec.copy_from_slice(&bytes[8..16]);
        (u64::from_le_bytes(sec), u64::from_le_bytes(usec))
    };
    assert_eq!(read(&first[0]), (1, 999_999));
    assert_eq!(read(&second[0]), (2, 0));
    assert!(read(&first[0]) <= read(&second[0]));
}

#[test]
fn a_copy_keeps_the_shape_of_the_buffer() {
    let src: Vec<u8> = (1..=10).collect();
    let mut dst: Vec<Vec<u8>> = vec![vec![0; 3], vec![], vec![0; 1], vec![0; 6]];
    copy_to_segments(&src, &mut dst);
    assert_eq!(dst, vec![vec![1, 2, 3], vec![], vec![4], vec![5, 6, 7, 8, 9, 10]]);
}

#[test]
fn a_copy_stops_where_the_source_or_the_buffer_ends() {
    let src: Vec<u8> = vec![1, 2, 3, 4];
    // The buffer is longer: its end stays as it was.
    let mut long: Vec<Vec<u8>> = vec![vec![9; 3], vec![9; 3], vec![9; 2]];
    copy_to_segments(&src, &mut long);
    assert_eq!(long, vec![vec![1, 2, 3], vec![4, 9, 9], vec![9, 9]]);
    // The buffer is shorter: the end of the source is dropped.
    let mut short: Vec<Vec<u8>> = vec![vec![9; 1], vec![9; 2]];
    copy_to_segments(&src, &mut short);
    assert_eq!(short, vec![vec![1], vec![2, 3]]);
    let mut none: Vec<Vec<u8>> = Vec::new();
    copy_to_segments(&src, &mut none);
    assert!(none.is_empty());
    let mut untouched: Vec<Vec<u8>> = vec![vec![7, 7]];
    copy_to_segments(&Vec::new(), &mut untouched);
    assert_eq!(untouched, vec![vec![7, 7]]);
    assert_eq!(lengths(&long), vec![3, 3, 2]);
}

#[test]
fn each_syscall_counts_once() {
    let mut task = TaskControlBlock::new(1, 1, 0);
    assert_eq!(MAX_SYSCALL_NUM, 500);
    task.record_syscall(169);
    task.record_syscall(410);
    task.record_syscall(169);
    task.record_syscall(0);
    task.record_syscall(499);
    task.record_syscall(169);
    let info = task_info(&task, 0);
    assert_eq!(info.syscall_times(169), 3);
    assert_eq!(info.syscall_times(410), 1);
    assert_eq!(info.syscall_times(0), 1);
    assert_eq!(info.syscall_times(499), 1);
    assert_eq!(info.syscall_times(1), 0);
    assert_eq!(info.syscall_times(168), 0);
    let total: u32 = (0..MAX_SYSCALL_NUM).map(|id| info.syscall_times(id)).sum();
    assert_eq!(total, 6);
    // One more call moves exactly one counter by exactly one.
    task.record_syscall(410);
    let later = task_info(&task, 0);
    for id in 0..MAX_SYSCALL_NUM {
        let grown = if id == 410 { 1 } else { 0 };
        assert_eq!(later.syscall_times(id), info.syscall_times(id) + grown);
    }
}

#[test]
fn task_info_reports_a_running_task_and_its_time() {
    let mut task = TaskControlBlock::new(1, 1, 0);
    // A task that has never run has used no time.
    let before = task_info(&task, 700);
    assert_eq!(before.status(), TaskStatus::Running);
    assert_eq!(before.time(), 0);
    task.mark_running(250);
    assert_eq!(task_info(&task, 250).time(), 0);
    assert_eq!(task_info(&task, 1000).time(), 750);
    // Later runs do not move the first run.
    task.mark_running(900);
    assert_eq!(task_info(&task, 1000).time(), 750);
    // Whatever the task's status says, the task that asks is running.
    task.status = TaskStatus::Ready;
    assert_eq!(task_info(&task, 1000).status(), TaskStatus::Running);
}

#[test]
fn a_task_info_is_2016_bytes() {
    let mut task = TaskControlBlock::new(1, 1, 0);
    task.mark_running(0x10);
    task.record_syscall(0);
    task.record_syscall(2);
    task.record_syscall(2);
    task.syscall_times[499] = 0x0a0b_0c0d;
    let bytes = task_info(&task, 0x0102_0310).to_bytes();
    assert_eq!(TASK_INFO_BYTES, 2016);
    assert_eq!(bytes.len(), TASK_INFO_BYTES);
    // The status: running is 2.
    assert_eq!(bytes[0..4], [2, 0, 0, 0]);
    // The counters, four bytes each.
    assert_eq!(bytes[4..8], [1, 0, 0, 0]);
    assert_eq!(bytes[8..12], [0, 0, 0, 0]);
    assert_eq!(bytes[12..16], [2, 0, 0, 0]);
    assert!(bytes[16..2000].iter().all(|&byte| byte == 0));
    assert_eq!(bytes[2000..2004], [0x0d, 0x0c, 0x0b, 0x0a]);
    // Padding, then the time.
    assert_eq!(bytes[2004..2008], [0, 0, 0, 0]);
    assert_eq!(bytes[2008..2016], [0, 3, 2, 1, 0, 0, 0, 0]);
}

#[test]
fn task_info_is_written_across_pages() {
    let mut task = TaskControlBlock::new(1, 1, 0);
    task.mark_running(100);
    task.record_syscall(410);
    let mut ti: Vec<Vec<u8>> = vec![vec![0xee; 1000], vec![0xee; 1016]];
    assert_eq!(sys_task_info(&task, 350, &mut ti), 0);
    assert_eq!(lengths(&ti), vec![1000, 1016]);
    assert_eq!(flat(&ti), task_info(&task, 350).to_bytes());
    // Counter 410 lies at byte 4 + 4 * 410 = 1644: in the second segment.
    assert_eq!(ti[1][644..648], [1, 0, 0, 0]);
    assert_eq!(ti[1][1008..1016], [250, 0, 0, 0, 0, 0, 0, 0]);
}
