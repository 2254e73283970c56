use fast_log::appender::{Command, FastLogRecord, Level};
use fast_log::consts::LogSize;
use fast_log::date::LogDate;
use fast_log::plugin::file_name::FileName;
use fast_log::plugin::file_split::{
    apply_pack, enforce_keep, get_base_name, read_paths, saver_step, truncate_then_write,
    DailyType, DateType, DiffDateType, FileInfo, FileSplitAppender, KeepType, MemFile, PackType,
    SplitFile,
};
use fast_log::plugin::file_daily::{daily_next_index, parse_daily_index, FileDailyAppender};
use fast_log::plugin::packer::{GZipPacker, LogPacker, Packer, PackerKind};

fn split_rec(text: &str, sec: u64) -> FastLogRecord {
    FastLogRecord {
        command: Command::CommandRecord,
        level: Level::Info,
        target: String::new(),
        args: String::new(),
        module: String::new(),
        file: String::new(),
        line: None,
        now_sec: sec,
        now_nano: 0,
        formated: text.to_string(),
    }
}

#[test]
fn test_log_name_create() {
    let p = LogPacker {};
    let name = p.log_name_create("temp.log");
    assert_eq!(name.ends_with(".log"), true);
}

#[test]
fn test_extract_file_name() {
    let p = "temp.log".extract_file_name();
    assert_eq!(p, "temp.log");
}

#[test]
fn test_extract_file_name2() {
    let p = "logs/temp.log".extract_file_name();
    assert_eq!(p, "temp.log");
}

#[test]
fn test_extract_file_name3() {
    let p = "logs/".extract_file_name();
    assert_eq!(p, "");
}

#[test]
fn test_extract_file_name4() {
    let p = "C:/logs".extract_file_name();
    assert_eq!(p, "logs");
}

#[test]
fn test_extract_file_name5() {
    let p = "C:/logs/aa.log".extract_file_name();
    assert_eq!(p, "aa.log");
}

#[test]
fn test_extract_file_name6() {
    let p = "C:\\logs\\aa.log".extract_file_name();
    assert_eq!(p, "aa.log");
}

#[test]
fn test_get_base_name() {
    assert_eq!(get_base_name("logs/temp.log"), "temp");
    assert_eq!(get_base_name("noext"), "noext");
}

#[test]
fn test_truncate_then_write() {
    let mut f = MemFile::with_content(vec![1u8, 2, 3]);
    let buf: Vec<u8> = vec![9u8, 8, 7, 6];
    let n = truncate_then_write(&mut f, &buf);
    assert_eq!(n, 4);
    assert_eq!(f.data_ref().as_slice(), &[9u8, 8, 7, 6]);
    assert_eq!(f.offset(), 4);
}

#[test]
fn test_reopen_preserves_bytes() {
    let existing: Vec<u8> = b"old-data".to_vec();
    let file = MemFile::with_content(existing.clone());
    let mut a = FileSplitAppender::from_file(
        file,
        String::new(),
        "temp.log".to_string(),
        PackType::BySize(LogSize::KB(1)),
        KeepType::All,
        PackerKind::Log(LogPacker {}),
        0,
    );
    assert_eq!(a.temp_bytes(), existing.len());
    let batch = vec![split_rec("x", 0)];
    a.write_batch(&batch);
    // the pre-existing bytes stay and the new byte is appended
    let packs = a.take_packs();
    assert_eq!(packs.len(), 0);
    assert_eq!(a.temp_bytes(), existing.len() + 1);
}

#[test]
fn test_size_rotation_bounds_and_totals() {
    let mut a = FileSplitAppender::<MemFile>::from_file(
        MemFile::empty(),
        "dir".to_string(),
        "temp.log".to_string(),
        PackType::BySize(LogSize::KB(1)),
        KeepType::KeepNum(3),
        PackerKind::Log(LogPacker {}),
        0,
    );
    let line = "x".repeat(199) + "\n";
    assert_eq!(line.len(), 200);
    let mut batch: Vec<FastLogRecord> = Vec::new();
    for i in 0..50 {
        batch.push(split_rec(&line, i as u64));
    }
    a.write_batch(&batch);
    let packs = a.take_packs();
    assert!(packs.len() > 0);
    let mut total = 0;
    for p in &packs {
        // each archive holds at least limit - record and at most limit + record bytes
        assert!(p.data.len() >= 1024 - 200);
        assert!(p.data.len() <= 1024 + 200);
        assert!(p.new_log_name.starts_with("dir/temp"));
        assert!(p.new_log_name.ends_with(".log"));
        total += p.data.len();
    }
    total += a.temp_bytes();
    // every byte of every record is either archived or still live
    assert_eq!(total, 50 * 200);
}

#[test]
fn test_date_rotation_single_boundary() {
    let start = LogDate { nano: 0, sec: 59, min: 59, hour: 23, day: 1, mon: 1, year: 2024 };
    let mut a = FileSplitAppender::<MemFile>::from_file(
        MemFile::empty(),
        String::new(),
        "temp.log".to_string(),
        PackType::ByDate(DateType::starting_at(start, DiffDateType::Day)),
        KeepType::All,
        PackerKind::Log(LogPacker {}),
        0,
    );
    let batch = vec![
        split_rec("a\n", 1704153599),  // 2024-01-01T23:59:59
        split_rec("b\n", 1704153601),  // 2024-01-02T00:00:01
        split_rec("c\n", 1704153602),  // 2024-01-02T00:00:02
    ];
    a.write_batch(&batch);
    let packs = a.take_packs();
    // exactly one rotation, at the day boundary, named after the old day
    assert_eq!(packs.len(), 1);
    assert!(packs[0].new_log_name.contains("2024-01-01"));
    assert_eq!(packs[0].data.as_slice(), b"a\n");
    // the live segment holds the two records of the new day
    assert_eq!(a.temp_bytes(), 4);
}

#[test]
fn test_daily_rotation_names() {
    let start = LogDate { nano: 0, sec: 0, min: 0, hour: 12, day: 1, mon: 1, year: 2024 };
    let mut a = FileSplitAppender::<MemFile>::from_file(
        MemFile::empty(),
        String::new(),
        "temp.log".to_string(),
        PackType::ByDaily(DailyType::starting_at(start, 0, LogSize::B(10))),
        KeepType::All,
        PackerKind::Log(LogPacker {}),
        0,
    );
    // a same-day rotation on a full segment counts the index up
    a.write_batch(&vec![split_rec("0123456789AB\n", 1704110400)]);
    // a day boundary names the archive after the old day, then resets
    a.write_batch(&vec![split_rec("x\n", 1704153601)]);
    let packs = a.take_packs();
    assert_eq!(packs.len(), 2);
    assert_eq!(packs[0].new_log_name, "temp_20240101_0.log");
    assert_eq!(packs[1].new_log_name, "temp_20240101_1.log");
    assert_eq!(packs[1].data.as_slice(), b"0123456789AB\n");
    assert_eq!(a.temp_bytes(), 2);
}

#[test]
fn test_flush_forwards_barrier_to_packer() {
    let mut a = FileSplitAppender::<MemFile>::from_file(
        MemFile::empty(),
        String::new(),
        "temp.log".to_string(),
        PackType::BySize(LogSize::B(10)),
        KeepType::All,
        PackerKind::Log(LogPacker {}),
        0,
    );
    a.write_batch(&vec![split_rec("123456789012\n", 0)]);
    // the oversized record rotated an empty segment away, then went live
    let first = a.take_packs();
    assert_eq!(first.len(), 1);
    assert_eq!(first[0].data.len(), 0);
    assert_eq!(a.temp_bytes(), 13);
    let wg = crossbeam_utils::sync::WaitGroup::new();
    let flush_rec = FastLogRecord {
        command: Command::CommandFlush(wg.clone()),
        level: Level::Info,
        target: String::new(),
        args: String::new(),
        module: String::new(),
        file: String::new(),
        line: None,
        now_sec: 0,
        now_nano: 0,
        formated: String::new(),
    };
    a.write_batch(&vec![flush_rec]);
    let packs = a.take_packs();
    // the segment was over the limit, so the flush rode along on a rotation
    assert_eq!(packs.len(), 1);
    assert!(packs[0].wg.is_some());
    assert_eq!(packs[0].data.as_slice(), b"123456789012\n");
    // a barrier-carrying job is the packer worker's shutdown signal
    let mut dir: Vec<FileInfo> = Vec::new();
    let packer = PackerKind::Log(LogPacker {});
    let cont = saver_step(
        &mut dir,
        packs.into_iter().next().unwrap(),
        &packer,
        &KeepType::All,
        "temp.log",
        0,
    );
    assert!(!cont);
    drop(wg);
}

#[test]
fn test_noop_pack_never_removes_files() {
    let mut dir = vec![
        FileInfo { name: "temp.log".to_string(), created_sec: 1 },
        FileInfo { name: "other.txt".to_string(), created_sec: 2 },
    ];
    let before = dir.len();
    let pack = fast_log::plugin::file_split::LogPack {
        dir: String::new(),
        new_log_name: "temp2024.log".to_string(),
        wg: None,
        data: b"abc".to_vec(),
    };
    let packer = PackerKind::Log(LogPacker {});
    apply_pack(&mut dir, &pack, &packer, 3).unwrap();
    assert!(dir.len() >= before);
    assert_eq!(dir.len(), before + 1);
    assert_eq!(dir[before].name, "temp2024.log");
}

#[test]
fn test_compressing_pack_swaps_copy_for_archive() {
    let mut dir = vec![FileInfo { name: "temp.log".to_string(), created_sec: 1 }];
    let pack = fast_log::plugin::file_split::LogPack {
        dir: String::new(),
        new_log_name: "temp2024.log".to_string(),
        wg: None,
        data: b"abcabcabc".to_vec(),
    };
    let packer = PackerKind::Gzip(GZipPacker {});
    apply_pack(&mut dir, &pack, &packer, 7).unwrap();
    // the copy was packed away and exactly the archive remains beside
    // the untouched live segment
    assert_eq!(dir.len(), 2);
    assert_eq!(dir[0].name, "temp.log");
    assert_eq!(dir[1].name, "temp2024.gz");
    assert_eq!(dir[1].created_sec, 7);
}

#[test]
fn test_daily_index_parse_and_resume() {
    let today = LogDate { nano: 0, sec: 0, min: 0, hour: 12, day: 20, mon: 7, year: 2023 };
    assert_eq!(parse_daily_index("temp_20230720_4.log", "temp.log", &today), Some(4));
    assert_eq!(parse_daily_index("temp_20230719_4.log", "temp.log", &today), None);
    assert_eq!(parse_daily_index("other_20230720_4.log", "temp.log", &today), None);
    let files = vec![
        FileInfo { name: "temp_20230720_0.log".to_string(), created_sec: 1 },
        FileInfo { name: "temp_20230720_3.log".to_string(), created_sec: 2 },
        FileInfo { name: "temp_20230719_9.log".to_string(), created_sec: 3 },
        FileInfo { name: "temp.log".to_string(), created_sec: 4 },
    ];
    assert_eq!(daily_next_index(&files, "temp.log", &today), 4);
    let none: Vec<FileInfo> = Vec::new();
    assert_eq!(daily_next_index(&none, "temp.log", &today), 0);
    // a reopened appender resumes past the existing same-day archives
    let mut a: FileDailyAppender<MemFile> = FileDailyAppender::new_resuming(
        "temp.log",
        LogSize::B(4),
        KeepType::All,
        PackerKind::Log(LogPacker {}),
        &files,
        today,
    )
    .unwrap();
    a.write_batch(&vec![split_rec("123456
", 1689854400)]);
    let packs = a.take_packs();
    assert_eq!(packs.len(), 1);
    assert_eq!(packs[0].new_log_name, "temp_20230720_4.log");
}

#[test]
fn test_keep_num_enforcement() {
    let mut dir = vec![
        FileInfo { name: "temp.log".to_string(), created_sec: 0 },
        FileInfo { name: "temp2024-01-01T00-00-00.000000.log".to_string(), created_sec: 1 },
        FileInfo { name: "temp2024-01-02T00-00-00.000000.log".to_string(), created_sec: 2 },
        FileInfo { name: "temp2024-01-03T00-00-00.000000.log".to_string(), created_sec: 3 },
        FileInfo { name: "temp2024-01-04T00-00-00.000000.log".to_string(), created_sec: 4 },
        FileInfo { name: "temp2024-01-05T00-00-00.000000.log".to_string(), created_sec: 5 },
        FileInfo { name: "unrelated.txt".to_string(), created_sec: 9 },
    ];
    let removed = enforce_keep(&mut dir, &KeepType::KeepNum(3), "temp.log", 100);
    assert_eq!(removed, 2);
    let mut siblings: Vec<String> = Vec::new();
    for f in &dir {
        if f.name != "temp.log" && f.name.starts_with("temp") {
            siblings.push(f.name.clone());
        }
    }
    // at most three archives stay, and they are the newest three
    assert_eq!(siblings.len(), 3);
    assert!(siblings.contains(&"temp2024-01-05T00-00-00.000000.log".to_string()));
    assert!(siblings.contains(&"temp2024-01-04T00-00-00.000000.log".to_string()));
    assert!(siblings.contains(&"temp2024-01-03T00-00-00.000000.log".to_string()));
    // the live segment and the unrelated file stay untouched
    assert!(dir.iter().any(|f| f.name == "temp.log"));
    assert!(dir.iter().any(|f| f.name == "unrelated.txt"));
}

#[test]
fn test_keep_time_enforcement() {
    let files = vec![
        FileInfo { name: "temp1.log".to_string(), created_sec: 10 },
        FileInfo { name: "temp2.log".to_string(), created_sec: 90 },
    ];
    let mask = KeepType::KeepTime(50).select_removals(&files, 100);
    assert_eq!(mask, vec![true, false]);
}

#[test]
fn test_read_paths_sorts_newest_first() {
    let files = vec![
        FileInfo { name: "temp2024-01-01.log".to_string(), created_sec: 1 },
        FileInfo { name: "temp2024-03-01.log".to_string(), created_sec: 3 },
        FileInfo { name: "temp.log".to_string(), created_sec: 0 },
        FileInfo { name: "temp2024-02-01.log".to_string(), created_sec: 2 },
        FileInfo { name: "zzz.txt".to_string(), created_sec: 9 },
    ];
    let sorted = read_paths(&files, "temp.log");
    assert_eq!(sorted.len(), 3);
    assert_eq!(sorted[0].name, "temp2024-03-01.log");
    assert_eq!(sorted[1].name, "temp2024-02-01.log");
    assert_eq!(sorted[2].name, "temp2024-01-01.log");
}

#[test]
fn test_log_size_parse() {
    assert_eq!(LogSize::parse("128B").unwrap(), LogSize::B(128));
    assert_eq!(LogSize::parse("4KB").unwrap(), LogSize::KB(4));
    assert_eq!(LogSize::parse("2MB").unwrap(), LogSize::MB(2));
    assert_eq!(LogSize::parse("1GB").unwrap(), LogSize::GB(1));
    assert!(LogSize::parse("12").is_err());
    // digits that do not parse count as zero
    assert_eq!(LogSize::parse("xKB").unwrap(), LogSize::KB(0));
}

#[test]
fn test_log_size_len() {
    assert_eq!(LogSize::KB(2).len(), 2048);
    assert_eq!(LogSize::MB(1).get_len(), 1048576);
    assert_eq!(LogSize::B(7).len(), 7);
}
