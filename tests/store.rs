use fortune_index::data_file::DataFile;
use fortune_index::fortune::{fortune_of, fortune_stats, record_text};
use fortune_index::header::Header;
use fortune_index::paths::is_index_path;
use fortune_index::select::{locate, random_fortune, total_count, RecordRange};
use fortune_index::store::{fortune_files, IndexEntry};
use fortune_index::{Flags, FortuneError, FortuneFileInfo};

fn index_bytes(version: u32, offsets: Vec<u32>) -> Vec<u8> {
    let count = offsets.len() as u32 - 1;
    let header = Header::new(version, count, 0, 0, Flags::empty(), '%');
    DataFile { header, offsets }.to_bytes()
}

fn entry(path: &str, bytes: Vec<u8>) -> IndexEntry {
    IndexEntry { path: path.to_string(), bytes }
}

fn info(path: &str, offsets: Vec<u32>) -> FortuneFileInfo {
    let count = offsets.len() as u32 - 1;
    let header = Header::new(2, count, 0, 0, Flags::empty(), '%');
    FortuneFileInfo::new(path.to_string(), DataFile { header, offsets })
}

#[test]
fn incompatible_files_are_left_out() {
    let entries = vec![
        entry("d/old.dat", index_bytes(1, vec![0, 3, 6])),
        entry("d/good.dat", index_bytes(2, vec![0, 3, 6, 9])),
        entry("d/empty.dat", index_bytes(2, vec![0])),
        entry("d/notes.txt", index_bytes(2, vec![0, 4])),
        entry("d/more.dat", index_bytes(2, vec![0, 5])),
    ];
    let infos = fortune_files(entries).unwrap();
    assert_eq!(infos.len(), 2);
    assert_eq!(infos[0].path(), "d/good.dat");
    assert_eq!(infos[0].count(), 3);
    assert_eq!(infos[0].offset_at(3), 9);
    assert_eq!(infos[1].path(), "d/more.dat");
    assert_eq!(infos[1].count(), 1);
}

#[test]
fn truncated_index_names_its_path() {
    let mut bytes = index_bytes(2, vec![0, 3, 6]);
    bytes.pop();
    let entries = vec![entry("d/good.dat", index_bytes(2, vec![0, 3])), entry("d/cut.dat", bytes)];
    match fortune_files(entries) {
        Err(FortuneError::CorruptIndex(p)) => assert_eq!(p, "d/cut.dat"),
        other => panic!("unexpected {:?}", other),
    }
}

#[test]
fn index_paths() {
    assert!(is_index_path("d/songs.dat"));
    assert!(!is_index_path("d/songs"));
    assert!(!is_index_path("d/songs.txt"));
}

#[test]
fn names_and_text_paths() {
    let i = info("data/songs.dat", vec![0, 3]);
    assert_eq!(i.text_path(), "data/songs");
    assert_eq!(i.fortune_file(), "songs");
}

#[test]
fn single_file_draws() {
    let infos = vec![info("a.dat", vec![0, 3, 6, 9])];
    assert_eq!(total_count(&infos), 3);
    for k in 0..3u32 {
        let r = locate(&infos, k as u128).unwrap();
        assert_eq!(r, RecordRange { file_index: 0, record: k as usize, start: 3 * k, len: 1 });
    }
}

#[test]
fn two_file_draws() {
    let infos = vec![info("a.dat", vec![0, 3, 6]), info("b.dat", vec![0, 4, 8, 12])];
    assert_eq!(total_count(&infos), 5);
    assert_eq!(locate(&infos, 0).unwrap(), RecordRange { file_index: 0, record: 0, start: 0, len: 1 });
    assert_eq!(locate(&infos, 1).unwrap(), RecordRange { file_index: 0, record: 1, start: 3, len: 1 });
    assert_eq!(locate(&infos, 3).unwrap(), RecordRange { file_index: 1, record: 1, start: 4, len: 2 });
    assert_eq!(locate(&infos, 4).unwrap(), RecordRange { file_index: 1, record: 2, start: 8, len: 2 });
}

#[test]
fn draw_equal_to_a_count_stays_with_that_file() {
    let infos = vec![info("a.dat", vec![0, 3, 6]), info("b.dat", vec![0, 4, 8, 12])];
    match locate(&infos, 2) {
        Err(FortuneError::RecordOutOfRange(p)) => assert_eq!(p, "a.dat"),
        other => panic!("unexpected {:?}", other),
    }
}

#[test]
fn short_record_range_is_corrupt() {
    let infos = vec![info("a.dat", vec![0, 1, 6])];
    assert!(matches!(locate(&infos, 0), Err(FortuneError::CorruptIndex(_))));
}

#[test]
fn no_fortunes_when_total_is_zero() {
    let none: Vec<FortuneFileInfo> = vec![];
    assert!(matches!(random_fortune(&none), Err(FortuneError::NoFortunesAvailable)));
    let entries = vec![
        entry("d/old.dat", index_bytes(1, vec![0, 3, 6])),
        entry("d/empty.dat", index_bytes(2, vec![0])),
    ];
    let infos = fortune_files(entries).unwrap();
    assert!(infos.is_empty());
    assert!(matches!(random_fortune(&infos), Err(FortuneError::NoFortunesAvailable)));
}

#[test]
fn random_draw_from_one_record() {
    let infos = vec![info("one.dat", vec![0, 5])];
    for _ in 0..20 {
        let r = random_fortune(&infos).unwrap();
        assert_eq!(r, RecordRange { file_index: 0, record: 0, start: 0, len: 3 });
    }
}

#[test]
fn random_draw_stays_in_range() {
    let infos = vec![info("a.dat", vec![0, 3, 6, 9]), info("b.dat", vec![0, 3])];
    for _ in 0..50 {
        match random_fortune(&infos) {
            Ok(r) => assert!(r.file_index < 2 && r.len == 1),
            Err(FortuneError::RecordOutOfRange(p)) => assert_eq!(p, "a.dat"),
            Err(e) => panic!("unexpected {:?}", e),
        }
    }
}

#[test]
fn stats_per_file() {
    let infos = vec![info("d/a.dat", vec![0, 3, 6]), info("d/b.dat", vec![0, 4])];
    let stats = fortune_stats(&infos);
    assert_eq!(stats.len(), 2);
    assert_eq!(stats[0].file(), "a");
    assert_eq!(stats[0].count(), 2);
    assert_eq!(stats[1].file(), "b");
    assert_eq!(stats[1].count(), 1);
}

#[test]
fn record_text_decodes_or_is_empty() {
    assert_eq!(record_text(b"hello".to_vec()), "hello");
    assert_eq!(record_text(vec![0xff, 0xfe]), "");
    assert_eq!(record_text(vec![]), "");
    let f = fortune_of(&info("d/wit.dat", vec![0, 5]), b"abc".to_vec());
    assert_eq!(f.file(), "wit");
    assert_eq!(f.fortune(), "abc");
}

#[test]
fn many_incompatible_files_change_nothing() {
    let usable = || vec![entry("d/a.dat", index_bytes(2, vec![0, 3, 6])), entry("d/b.dat", index_bytes(2, vec![0, 4]))];
    let mut mixed = vec![entry("d/x.dat", index_bytes(3, vec![0, 3]))];
    for (k, e) in usable().into_iter().enumerate() {
        mixed.push(e);
        mixed.push(entry(&format!("d/old{}.dat", k), index_bytes(1, vec![0, 2, 4])));
        mixed.push(entry(&format!("d/none{}.dat", k), index_bytes(2, vec![0])));
    }
    let plain = fortune_files(usable()).unwrap();
    let with_skipped = fortune_files(mixed).unwrap();
    assert_eq!(plain.len(), with_skipped.len());
    for (p, q) in plain.iter().zip(with_skipped.iter()) {
        assert_eq!(p.path(), q.path());
        assert_eq!(p.data_file.header, q.data_file.header);
        assert_eq!(p.data_file.offsets, q.data_file.offsets);
    }
    assert_eq!(total_count(&plain), total_count(&with_skipped));
}

#[test]
fn record_text_multibyte() {
    assert_eq!(record_text("héllo €".as_bytes().to_vec()), "héllo €");
    assert_eq!(record_text(vec![b'a', 0xc3]), "");
}
