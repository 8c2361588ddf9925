use wave_bench::discover::{files_of_format, precedes};
use wave_bench::suite::Format;

fn entry(path: &str, ext: &str) -> (Vec<u8>, Option<Format>) {
    (path.as_bytes().to_vec(), Format::from_extension(ext))
}

#[test]
fn files_split_by_format_and_sorted() {
    let files = vec![
        entry("data/b.vcd", "vcd"),
        entry("data/a.fst", "fst"),
        entry("data/notes.txt", "txt"),
        entry("data/a.vcd", "vcd"),
        entry("data/c.vcd", "vcd"),
        entry("data/README", ""),
        entry("data/B.fst", "fst"),
    ];
    assert_eq!(files_of_format(&files, Format::Vcd), vec![3, 0, 4]);
    assert_eq!(files_of_format(&files, Format::Fst), vec![6, 1]);
}

#[test]
fn no_matching_files() {
    let files = vec![entry("x.txt", "txt")];
    assert!(files_of_format(&files, Format::Vcd).is_empty());
    assert!(files_of_format(&Vec::new(), Format::Fst).is_empty());
}

#[test]
fn byte_order_of_paths() {
    assert!(precedes(b"a", b"b"));
    assert!(precedes(b"a", b"ab"));
    assert!(!precedes(b"ab", b"a"));
    assert!(!precedes(b"a", b"a"));
    assert!(precedes(b"", b"a"));
    assert!(precedes(b"Z", b"a"));
}
