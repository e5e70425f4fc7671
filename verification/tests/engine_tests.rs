use std::io::{Cursor, Write};
use zip::write::{SimpleFileOptions, ZipWriter};
use zip_extractor::engine::{
    completion_line, extract_archive, no_filter_line, processing_line, select_archives,
    ArchiveOutcome, EngineError, InputSelector, ListingEntry, PathKind,
};
use zip_extractor::filter::parse_filter_exec;

enum Item<'a> {
    File(&'a str, &'a [u8]),
    Dir(&'a str),
}

fn build_zip(items: &[Item]) -> Vec<u8> {
    let mut w = ZipWriter::new(Cursor::new(Vec::new()));
    let opts = SimpleFileOptions::default();
    for item in items {
        match item {
            Item::File(name, data) => {
                w.start_file(*name, opts).unwrap();
                w.write_all(data).unwrap();
            }
            Item::Dir(name) => {
                w.add_directory(*name, opts).unwrap();
            }
        }
    }
    w.finish().unwrap().into_inner()
}

fn names_of(out: &ArchiveOutcome) -> Vec<String> {
    out.files.iter().map(|f| f.name.clone()).collect()
}

#[test]
fn pdf_filter_keeps_only_pdf() {
    let bytes = build_zip(&[
        Item::File("docs/report.pdf", b"PDFDATA"),
        Item::File("docs/__MACOSX/._report.pdf", b"JUNK"),
        Item::File("img/photo.PNG", b"PNGDATA"),
    ]);
    let filter = parse_filter_exec("pdf");
    let out = extract_archive(&bytes, &filter, "out").unwrap();
    assert_eq!(names_of(&out), vec!["report.pdf".to_string()]);
    assert_eq!(out.files[0].data, b"PDFDATA".to_vec());
    assert_eq!(out.logs, vec!["Extracted: out/report.pdf\n".to_string()]);
}

#[test]
fn directories_only_extracts_nothing() {
    let bytes = build_zip(&[Item::Dir("a"), Item::Dir("b/sub")]);
    let filter = parse_filter_exec("");
    assert!(filter.is_empty());
    let out = extract_archive(&bytes, &filter, "out").unwrap();
    assert!(out.files.is_empty());
    assert!(out.logs.is_empty());
    assert_eq!(completion_line(), "Extraction completed successfully.\n");
}

#[test]
fn directory_selector_takes_only_zip_files() {
    let selector = InputSelector::ArchiveDirectory("in".to_string());
    let listing = vec![
        ListingEntry { path: "in/a.zip".to_string(), is_file: true },
        ListingEntry { path: "in/notes.txt".to_string(), is_file: true },
        ListingEntry { path: "in/b.zip".to_string(), is_file: true },
    ];
    let picked = select_archives(&selector, PathKind::IsDirectory, &listing).unwrap();
    assert_eq!(picked, vec!["in/a.zip".to_string(), "in/b.zip".to_string()]);
}

#[test]
fn directory_selector_ignores_subdirectories_and_case() {
    let selector = InputSelector::ArchiveDirectory("in".to_string());
    let listing = vec![
        ListingEntry { path: "in/upper.ZIP".to_string(), is_file: true },
        ListingEntry { path: "in/nested.zip".to_string(), is_file: false },
        ListingEntry { path: "in/zip".to_string(), is_file: true },
    ];
    let picked = select_archives(&selector, PathKind::IsDirectory, &listing).unwrap();
    assert_eq!(picked, vec!["in/upper.ZIP".to_string()]);
}

#[test]
fn missing_single_archive_is_invalid_input() {
    let selector = InputSelector::SingleArchive("nope.zip".to_string());
    let listing: Vec<ListingEntry> = Vec::new();
    let r = select_archives(&selector, PathKind::Other, &listing);
    assert_eq!(r, Err(EngineError::InvalidInputPath));
}

#[test]
fn single_archive_must_be_a_file_not_a_directory() {
    let selector = InputSelector::SingleArchive("somewhere".to_string());
    let listing: Vec<ListingEntry> = Vec::new();
    let r = select_archives(&selector, PathKind::IsDirectory, &listing);
    assert_eq!(r, Err(EngineError::InvalidInputPath));
    let ok = select_archives(&selector, PathKind::IsFile, &listing).unwrap();
    assert_eq!(ok, vec!["somewhere".to_string()]);
}

#[test]
fn filter_is_case_insensitive_both_ways() {
    let bytes = build_zip(&[
        Item::File("img/photo.PNG", b"PNGDATA"),
        Item::File("doc/a.pdf", b"PDFDATA"),
    ]);
    let lower = extract_archive(&bytes, &parse_filter_exec("png"), "out").unwrap();
    let upper = extract_archive(&bytes, &parse_filter_exec("PNG"), "out").unwrap();
    assert_eq!(names_of(&lower), vec!["photo.PNG".to_string()]);
    assert_eq!(names_of(&upper), vec!["photo.PNG".to_string()]);
}

#[test]
fn metadata_marker_is_always_skipped() {
    let bytes = build_zip(&[
        Item::File("__MACOSX/._x.pdf", b"JUNK"),
        Item::File("x.pdf", b"REAL"),
        Item::File("deep/__MACOSX/y.pdf", b"JUNK2"),
    ]);
    let out = extract_archive(&bytes, &parse_filter_exec(""), "out").unwrap();
    assert_eq!(names_of(&out), vec!["x.pdf".to_string()]);
}

#[test]
fn directory_entries_are_not_counted_as_files() {
    let bytes = build_zip(&[
        Item::Dir("docs"),
        Item::File("docs/a.txt", b"A"),
        Item::Dir("docs/inner"),
        Item::File("docs/inner/b.txt", b"B"),
    ]);
    let out = extract_archive(&bytes, &parse_filter_exec(""), "out").unwrap();
    assert_eq!(names_of(&out), vec!["a.txt".to_string(), "b.txt".to_string()]);
    assert_eq!(out.logs.len(), 2);
}

#[test]
fn extraction_is_deterministic_and_idempotent() {
    let bytes = build_zip(&[
        Item::File("one.txt", b"1"),
        Item::File("sub/two.txt", b"2"),
    ]);
    let filter = parse_filter_exec("txt");
    let first = extract_archive(&bytes, &filter, "out").unwrap();
    let second = extract_archive(&bytes, &filter, "out").unwrap();
    assert_eq!(names_of(&first), names_of(&second));
    let mut dir1 = std::collections::HashMap::new();
    for f in &first.files {
        dir1.insert(f.name.clone(), f.data.clone());
    }
    let mut dir2 = dir1.clone();
    for f in &second.files {
        dir2.insert(f.name.clone(), f.data.clone());
    }
    assert_eq!(dir1, dir2);
}

#[test]
fn unreadable_bytes_are_an_open_failure() {
    let bytes = vec![1u8, 2, 3, 4];
    let r = extract_archive(&bytes, &parse_filter_exec(""), "out");
    assert!(matches!(r, Err(EngineError::ArchiveOpenFailure)));
}

#[test]
fn later_entry_with_same_name_wins() {
    let bytes = build_zip(&[
        Item::File("a/same.txt", b"FIRST"),
        Item::File("b/same.txt", b"SECOND"),
    ]);
    let out = extract_archive(&bytes, &parse_filter_exec(""), "out").unwrap();
    let mut dir = std::collections::HashMap::new();
    for f in &out.files {
        dir.insert(f.name.clone(), f.data.clone());
    }
    assert_eq!(dir.get("same.txt").unwrap(), &b"SECOND".to_vec());
}

#[test]
fn progress_and_preamble_lines_read_as_expected() {
    assert_eq!(processing_line("in/a.zip"), "Processing zip file: in/a.zip\n");
    assert_eq!(
        no_filter_line(),
        "No file extensions provided, extracting all files.\n"
    );
}

#[test]
fn entry_without_extension_needs_empty_filter() {
    let bytes = build_zip(&[Item::File("README", b"hello")]);
    let with_filter = extract_archive(&bytes, &parse_filter_exec("txt"), "out").unwrap();
    assert!(with_filter.files.is_empty());
    let no_filter = extract_archive(&bytes, &parse_filter_exec(""), "out").unwrap();
    assert_eq!(names_of(&no_filter), vec!["README".to_string()]);
}

#[test]
fn filter_folds_beyond_ascii() {
    let bytes = build_zip(&[Item::File("docs/x.P\u{c9}", b"ACCENT")]);
    let filter = parse_filter_exec("p\u{e9}");
    let out = extract_archive(&bytes, &filter, "out").unwrap();
    assert_eq!(names_of(&out), vec!["x.P\u{c9}".to_string()]);
    assert_eq!(out.files[0].data, b"ACCENT".to_vec());
}

#[test]
fn filter_texts_that_fold_alike_select_alike() {
    let bytes = build_zip(&[
        Item::File("a.P\u{c9}", b"ONE"),
        Item::File("b.txt", b"TWO"),
    ]);
    let upper = extract_archive(&bytes, &parse_filter_exec("P\u{c9}"), "out").unwrap();
    let lower = extract_archive(&bytes, &parse_filter_exec("p\u{e9}"), "out").unwrap();
    assert_eq!(names_of(&upper), names_of(&lower));
    assert_eq!(names_of(&upper), vec!["a.P\u{c9}".to_string()]);
}
