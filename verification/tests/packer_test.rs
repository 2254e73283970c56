use fast_log::consts::LogSize;
use fast_log::plugin::file_rotate::{FileRotateAppender, Rotate, RotateKeepType, RotateKeeper};
use fast_log::plugin::file_split::{KeepType, MemFile};
use fast_log::plugin::file_split::{FileInfo, LogPack};

use fast_log::plugin::packer::{GZipPacker, LZ4Packer, LogPacker, Packer, PackerKind, ZipPacker};

#[test]
fn test_pack_names() {
    assert_eq!(LogPacker {}.pack_name(), "log");
    assert_eq!(ZipPacker {}.pack_name(), "zip");
    assert_eq!(LZ4Packer {}.pack_name(), "lz4");
    assert_eq!(GZipPacker {}.pack_name(), "gz");
}

#[test]
fn test_noop_packer_keeps_original() {
    let done = LogPacker {}.do_pack(&b"payload".to_vec(), "dir/temp2024.log").unwrap();
    assert!(done.archive.is_none());
    assert!(!done.remove_original);
}

#[test]
fn test_gzip_packer_output() {
    let data = b"hello hello hello hello".to_vec();
    let done = GZipPacker {}.do_pack(&data, "dir/temp2024.log").unwrap();
    assert!(done.remove_original);
    let (path, bytes) = done.archive.unwrap();
    assert_eq!(path, "dir/temp2024.gz");
    // a real gzip stream, not the input handed back
    assert!(bytes.len() >= 10);
    assert_eq!(bytes[0], 0x1f);
    assert_eq!(bytes[1], 0x8b);
    assert_eq!(bytes[9], 255);
    assert_ne!(bytes, data);
}

#[test]
fn test_lz4_packer_output() {
    let data = b"hello hello hello hello".to_vec();
    let done = LZ4Packer {}.do_pack(&data, "dir/temp2024.log").unwrap();
    assert!(done.remove_original);
    let (path, bytes) = done.archive.unwrap();
    assert_eq!(path, "dir/temp2024.lz4");
    // the lz4 frame magic number
    assert_eq!(bytes[0], 0x04);
    assert_eq!(bytes[1], 0x22);
    assert_eq!(bytes[2], 0x4d);
    assert_eq!(bytes[3], 0x18);
    assert_ne!(bytes, data);
}

#[test]
fn test_zip_packer_output() {
    let data = b"hello hello hello hello".to_vec();
    let done = ZipPacker {}.do_pack(&data, "dir/temp2024.log").unwrap();
    assert!(done.remove_original);
    let (path, bytes) = done.archive.unwrap();
    assert_eq!(path, "dir/temp2024.zip");
    // the zip local-file-header magic
    assert_eq!(bytes[0], b'P');
    assert_eq!(bytes[1], b'K');
    assert_ne!(bytes, data);
}

#[test]
fn test_logpack_do_pack_delegates() {
    let pack = LogPack {
        dir: "dir".to_string(),
        new_log_name: "dir/temp2024.log".to_string(),
        wg: None,
        data: b"abc".to_vec(),
    };
    let done = pack.do_pack(&PackerKind::Gzip(GZipPacker {})).unwrap();
    let (path, _) = done.archive.unwrap();
    assert_eq!(path, "dir/temp2024.gz");
}

#[test]
fn test_rotate_index_parse() {
    assert_eq!(
        RotateKeeper::file_name_parse_index("temp_7.log", "temp.log"),
        Some(7)
    );
    assert_eq!(
        RotateKeeper::file_name_parse_index("temp_123.log", "temp.log"),
        Some(123)
    );
    assert_eq!(RotateKeeper::file_name_parse_index("other_7.log", "temp.log"), None);
    assert_eq!(RotateKeeper::file_name_parse_index("temp_x.log", "temp.log"), None);
}

#[test]
fn test_rotate_calc_filename() {
    assert_eq!(RotateKeeper::calc_filename("temp.log", 0), "temp_0.log");
    assert_eq!(RotateKeeper::calc_filename("temp.log", 15), "temp_15.log");
}

#[test]
fn test_rotate_keeper_sequence() {
    let mut k = RotateKeeper::new(RotateKeepType::KeepNum(100));
    let files = vec![
        FileInfo { name: "temp_3.log".to_string(), created_sec: 1 },
        FileInfo { name: "temp_11.log".to_string(), created_sec: 2 },
        FileInfo { name: "junk".to_string(), created_sec: 3 },
    ];
    let cur = k.init(&files);
    assert_eq!(cur, "temp_11.log");
    let rec = fast_log::appender::FastLogRecord {
        command: fast_log::appender::Command::CommandRecord,
        level: fast_log::appender::Level::Info,
        target: String::new(),
        args: String::new(),
        module: String::new(),
        file: String::new(),
        line: None,
        now_sec: 0,
        now_nano: 0,
        formated: String::new(),
    };
    assert_eq!(k.next(&rec), "temp_12.log");
    assert_eq!(k.current(), "temp_12.log");
    assert_eq!(k.base_name(), "temp.log");
}

#[test]
fn test_index_rotation_sequence() {
    let mut a: FileRotateAppender<MemFile> = FileRotateAppender::new(
        "temp.log",
        LogSize::B(4),
        11,
        KeepType::All,
        PackerKind::Log(LogPacker {}),
    )
    .unwrap();
    let rec = |text: &str| fast_log::appender::FastLogRecord {
        command: fast_log::appender::Command::CommandRecord,
        level: fast_log::appender::Level::Info,
        target: String::new(),
        args: String::new(),
        module: String::new(),
        file: String::new(),
        line: None,
        now_sec: 0,
        now_nano: 0,
        formated: text.to_string(),
    };
    a.write_batch(&vec![rec("aaaaaa")]);
    a.write_batch(&vec![rec("bbbbbb")]);
    let packs = a.take_packs();
    assert_eq!(packs.len(), 2);
    assert_eq!(packs[0].new_log_name, "temp_11.log");
    assert_eq!(packs[1].new_log_name, "temp_12.log");
    assert_eq!(packs[1].data.as_slice(), b"aaaaaa");
}

#[test]
fn test_log_name_create_uses_extension() {
    let name = GZipPacker {}.log_name_create("logs/temp.log");
    assert!(name.starts_with("temp"));
    assert!(name.ends_with(".gz"));
}
