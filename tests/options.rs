use fortune_index::build_options::Options;
use fortune_index::query_options;
use fortune_index::Flags;

fn build_options(dat_file: Option<&str>) -> Options {
    Options {
        file: "corpus/wisdom.txt".to_string(),
        dat_file: dat_file.map(|s| s.to_string()),
        quiet: true,
        separator: '%',
        random: true,
        ordered: false,
        rotated: true,
    }
}

#[test]
fn default_index_path() {
    assert_eq!(build_options(None).dat_file(), "corpus/wisdom.dat");
    assert_eq!(build_options(Some("out/x.dat")).dat_file(), "out/x.dat");
    let mut o = build_options(None);
    o.file = "corpus/a.b.c".to_string();
    assert_eq!(o.dat_file(), "corpus/a.b.dat");
}

#[test]
fn build_option_values() {
    let o = build_options(None);
    assert_eq!(o.file(), "corpus/wisdom.txt");
    assert!(o.quiet());
    assert_eq!(o.separator(), '%');
    assert_eq!(o.flags(), Flags { random: true, ordered: false, rotated: true });
}

#[test]
fn query_option_values() {
    let o = query_options::Options { folder: None, summary: true, verbose: false };
    assert!(o.summary());
    assert!(!o.verbose());
}
