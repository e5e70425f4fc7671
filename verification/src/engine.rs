//! The extraction engine: which archives a run takes, which entries leave an
//! archive, under which names, and the progress lines the run reports.

use vstd::prelude::*;
use vstd::string::StringExecFns;
use crate::text::{has_substring, lower};
use crate::pathname::{path_ext, path_file_name};
use crate::filter::{filter_matches, str_views};
use crate::zipio::{archive_entries, parsed_entries};
use std::io::Cursor;
use zip::read::ZipArchive;

verus! {

/// Where a run reads from: one archive file, or every archive held
/// directly in a directory.
#[derive(Clone, Debug)]
pub enum InputSelector {
    SingleArchive(String),
    ArchiveDirectory(String),
}

/// What the input path turned out to be on disk.
#[derive(Clone, Copy, Debug, PartialEq, Eq, Structural)]
pub enum PathKind {
    IsFile,
    IsDirectory,
    Other,
}

/// Why a run stopped. The first aborts before any extraction; the next two
/// abort the run at the archive that failed; the last is reported by the
/// caller when a produced file cannot be written out.
#[derive(Clone, Copy, Debug, PartialEq, Eq, Structural)]
pub enum EngineError {
    InvalidInputPath,
    ArchiveOpenFailure,
    ArchiveReadFailure,
    OutputWriteFailure,
}

/// One direct child of the input directory, as the caller lists it.
pub struct ListingEntry {
    pub path: String,
    pub is_file: bool,
}

impl View for ListingEntry {
    type V = (Seq<char>, bool);

    open spec fn view(&self) -> (Seq<char>, bool) {
        (self.path@, self.is_file)
    }
}

/// One file produced by a run: its bare name and its bytes.
pub struct ExtractedFile {
    pub name: String,
    pub data: Vec<u8>,
}

impl View for ExtractedFile {
    type V = (Seq<char>, Seq<u8>);

    open spec fn view(&self) -> (Seq<char>, Seq<u8>) {
        (self.name@, self.data@)
    }
}

/// What one archive yields: the files to write and the progress lines.
pub struct ArchiveOutcome {
    pub files: Vec<ExtractedFile>,
    pub logs: Vec<String>,
}

/// The metadata marker: entries whose path holds it anywhere are never
/// extracted.
pub open spec fn marker() -> Seq<char> {
    "__MACOSX"@
}

/// An entry leaves its archive exactly when its path is free of the
/// metadata marker, it is a plain file, and its extension passes the filter.
pub open spec fn entry_eligible(name: Seq<char>, is_file: bool, f: Seq<Seq<char>>) -> bool {
    &&& !has_substring(name, marker())
    &&& is_file
    &&& filter_matches(f, path_ext(name))
}

/// The files that a run of one archive produces, in entry order: each
/// eligible entry with a usable file name, under that bare name, with its
/// bytes unchanged.
pub open spec fn extracted_of(
    es: Seq<(Seq<char>, bool, Seq<u8>, bool, bool)>,
    f: Seq<Seq<char>>,
) -> Seq<(Seq<char>, Seq<u8>)>
    decreases es.len(),
{
    if es.len() == 0 {
        Seq::<(Seq<char>, Seq<u8>)>::empty()
    } else {
        let rest = extracted_of(es.drop_last(), f);
        let e = es.last();
        if entry_eligible(e.0, e.1, f) {
            match path_file_name(e.0) {
                Some(nm) => rest.push((nm, e.2)),
                None => rest,
            }
        } else {
            rest
        }
    }
}

pub open spec fn extracted_line(dir: Seq<char>, name: Seq<char>) -> Seq<char> {
    "Extracted: "@ + dir + "/"@ + name + "\n"@
}

pub open spec fn warning_line(name: Seq<char>) -> Seq<char> {
    "Warning: Skipping entry with invalid file name: "@ + name + "\n"@
}

pub open spec fn processing_line_of(path: Seq<char>) -> Seq<char> {
    "Processing zip file: "@ + path + "\n"@
}

pub open spec fn no_filter_line_of() -> Seq<char> {
    "No file extensions provided, extracting all files.\n"@
}

pub open spec fn completion_line_of() -> Seq<char> {
    "Extraction completed successfully.\n"@
}

pub open spec fn not_dir_line_of(path: Seq<char>) -> Seq<char> {
    path + " is not a valid directory.\n"@
}

pub open spec fn not_file_line_of(path: Seq<char>) -> Seq<char> {
    path + " is not a valid file.\n"@
}

/// The progress lines a run of one archive reports, in entry order: one per
/// extracted file, one warning per eligible entry without a usable name.
pub open spec fn archive_logs(
    es: Seq<(Seq<char>, bool, Seq<u8>, bool, bool)>,
    f: Seq<Seq<char>>,
    dir: Seq<char>,
) -> Seq<Seq<char>>
    decreases es.len(),
{
    if es.len() == 0 {
        Seq::<Seq<char>>::empty()
    } else {
        let rest = archive_logs(es.drop_last(), f, dir);
        let e = es.last();
        if entry_eligible(e.0, e.1, f) {
            match path_file_name(e.0) {
                Some(nm) => rest.push(extracted_line(dir, nm)),
                None => rest.push(warning_line(e.0)),
            }
        } else {
            rest
        }
    }
}

/// A path names an archive when its extension equals "zip" up to ASCII
/// letter case. Archive-name detection compares ASCII-only, unlike the
/// extension filter, which folds the full character set.
pub open spec fn is_zip_path(p: Seq<char>) -> bool {
    match path_ext(p) {
        Some(e) => lower(e) == "zip"@,
        None => false,
    }
}

/// The archive paths a directory listing contributes, in listing order:
/// the plain files whose extension names an archive.
pub open spec fn selected_zips(ls: Seq<(Seq<char>, bool)>) -> Seq<Seq<char>>
    decreases ls.len(),
{
    if ls.len() == 0 {
        Seq::<Seq<char>>::empty()
    } else {
        let rest = selected_zips(ls.drop_last());
        let e = ls.last();
        if e.1 && is_zip_path(e.0) {
            rest.push(e.0)
        } else {
            rest
        }
    }
}

pub fn extracted_line_exec(dir: &str, name: &str) -> (r: String)
    ensures
        r@ == extracted_line(dir@, name@),
{
    let mut s = String::from_str("Extracted: ");
    s.append(dir);
    s.append("/");
    s.append(name);
    s.append("\n");
    s
}

pub fn warning_line_exec(name: &str) -> (r: String)
    ensures
        r@ == warning_line(name@),
{
    let mut s = String::from_str("Warning: Skipping entry with invalid file name: ");
    s.append(name);
    s.append("\n");
    s
}

pub fn processing_line(path: &str) -> (r: String)
    ensures
        r@ == processing_line_of(path@),
{
    let mut s = String::from_str("Processing zip file: ");
    s.append(path);
    s.append("\n");
    s
}

pub fn no_filter_line() -> (r: String)
    ensures
        r@ == no_filter_line_of(),
{
    String::from_str("No file extensions provided, extracting all files.\n")
}

pub fn completion_line() -> (r: String)
    ensures
        r@ == completion_line_of(),
{
    String::from_str("Extraction completed successfully.\n")
}

pub fn not_dir_line(path: &str) -> (r: String)
    ensures
        r@ == not_dir_line_of(path@),
{
    let mut s = String::from_str(path);
    s.append(" is not a valid directory.\n");
    s
}

pub fn not_file_line(path: &str) -> (r: String)
    ensures
        r@ == not_file_line_of(path@),
{
    let mut s = String::from_str(path);
    s.append(" is not a valid file.\n");
    s
}

/// Whether a path names an archive to process.
pub fn is_zip_path_exec(p: &str) -> (r: bool)
    ensures
        r == is_zip_path(p@),
{
    match crate::pathname::path_ext_exec(p) {
        Some(e) => {
            let le = crate::text::lower_str(e.as_str());
            let z = String::from_str("zip");
            (&le).eq(&z)
        },
        None => false,
    }
}

/// The archives a run takes: for a single-archive selector, exactly its
/// path, provided it is a plain file; for a directory selector, the listed
/// plain files whose extension names an archive, provided the input is a
/// directory. Anything else is an invalid input and nothing is extracted.
pub fn select_archives(selector: &InputSelector, kind: PathKind, listing: &Vec<ListingEntry>) -> (r:
    Result<Vec<String>, EngineError>)
    ensures
        match selector {
            InputSelector::SingleArchive(p) => {
                if kind == PathKind::IsFile {
                    r matches Ok(v) && str_views(v@) == seq![p@]
                } else {
                    r == Err::<Vec<String>, EngineError>(EngineError::InvalidInputPath)
                }
            },
            InputSelector::ArchiveDirectory(_) => {
                if kind == PathKind::IsDirectory {
                    r matches Ok(v) && str_views(v@) == selected_zips(
                        listing@.map_values(|l: ListingEntry| l@),
                    )
                } else {
                    r == Err::<Vec<String>, EngineError>(EngineError::InvalidInputPath)
                }
            },
        },
{
    match selector {
        InputSelector::SingleArchive(p) => {
            if kind == PathKind::IsFile {
                let mut v: Vec<String> = Vec::new();
                v.push(p.clone());
                proof {
                    assert(str_views(v@) =~= seq![p@]);
                }
                Ok(v)
            } else {
                Err(EngineError::InvalidInputPath)
            }
        },
        InputSelector::ArchiveDirectory(_) => {
            if kind == PathKind::IsDirectory {
                let ghost ls = listing@.map_values(|l: ListingEntry| l@);
                let mut v: Vec<String> = Vec::new();
                let mut i: usize = 0;
                proof {
                    assert(ls.take(0) =~= Seq::<(Seq<char>, bool)>::empty());
                    assert(str_views(v@) =~= Seq::<Seq<char>>::empty());
                }
                while i < listing.len()
                    invariant
                        ls == listing@.map_values(|l: ListingEntry| l@),
                        i <= listing@.len(),
                        str_views(v@) == selected_zips(ls.take(i as int)),
                    decreases listing@.len() - i,
                {
                    let ghost vv = str_views(v@);
                    proof {
                        assert(ls.take(i + 1).drop_last() =~= ls.take(i as int));
                        assert(ls.take(i + 1).last() == ls[i as int]);
                        assert(ls[i as int] == listing@[i as int]@);
                    }
                    let e = &listing[i];
                    if e.is_file && is_zip_path_exec(e.path.as_str()) {
                        v.push(e.path.clone());
                        proof {
                            assert(str_views(v@) =~= vv.push(listing@[i as int].path@));
                        }
                    }
                    i = i + 1;
                }
                proof {
                    assert(ls.take(listing@.len() as int) =~= ls);
                }
                Ok(v)
            } else {
                Err(EngineError::InvalidInputPath)
            }
        },
    }
}

/// The walk can read everything it must: every entry's header can be
/// opened, and every entry it reads out — eligible, with a usable file
/// name — has readable bytes.
pub open spec fn walk_reads_ok(
    es: Seq<(Seq<char>, bool, Seq<u8>, bool, bool)>,
    f: Seq<Seq<char>>,
) -> bool {
    forall|k: int|
        0 <= k < es.len() ==> ((#[trigger] es[k]).3 && (entry_eligible(es[k].0, es[k].1, f)
            && path_file_name(es[k].0) is Some ==> es[k].4))
}

proof fn lemma_archive_step(
    es: Seq<(Seq<char>, bool, Seq<u8>, bool, bool)>,
    f: Seq<Seq<char>>,
    dir: Seq<char>,
    i: int,
)
    requires
        0 <= i < es.len(),
    ensures
        extracted_of(es.take(i + 1), f) == (if entry_eligible(es[i].0, es[i].1, f) {
            match path_file_name(es[i].0) {
                Some(nm) => extracted_of(es.take(i), f).push((nm, es[i].2)),
                None => extracted_of(es.take(i), f),
            }
        } else {
            extracted_of(es.take(i), f)
        }),
        archive_logs(es.take(i + 1), f, dir) == (if entry_eligible(es[i].0, es[i].1, f) {
            match path_file_name(es[i].0) {
                Some(nm) => archive_logs(es.take(i), f, dir).push(extracted_line(dir, nm)),
                None => archive_logs(es.take(i), f, dir).push(warning_line(es[i].0)),
            }
        } else {
            archive_logs(es.take(i), f, dir)
        }),
{
    assert(es.take(i + 1).drop_last() =~= es.take(i));
    assert(es.take(i + 1).last() == es[i]);
}

/// Walks one archive, given as its bytes, and yields the files that pass
/// the filter together with the run's progress lines. The walk stops at the
/// first entry the container cannot read; bytes that are no readable
/// container fail before any entry is seen; it succeeds exactly when the
/// bytes parse and every read the walk makes goes through.
pub fn extract_archive(bytes: &Vec<u8>, f: &Vec<String>, out_dir: &str) -> (r: Result<
    ArchiveOutcome,
    EngineError,
>)
    ensures
        r is Ok <==> (parsed_entries(bytes@) matches Some(es) && walk_reads_ok(es, str_views(f@))),
        (r == Err::<ArchiveOutcome, EngineError>(EngineError::ArchiveOpenFailure)) <==> (
        parsed_entries(bytes@) is None),
        r matches Err(e) ==> e == EngineError::ArchiveOpenFailure || e
            == EngineError::ArchiveReadFailure,
        r matches Ok(out) ==> parsed_entries(bytes@) matches Some(es)
            && out.files@.map_values(|x: ExtractedFile| x@) == extracted_of(es, str_views(f@))
            && str_views(out.logs@) == archive_logs(es, str_views(f@), out_dir@),
{
    let mut archive: ZipArchive<Cursor<Vec<u8>>> = match crate::zipio::open_archive(bytes) {
        Ok(a) => a,
        Err(_) => {
            return Err(EngineError::ArchiveOpenFailure);
        },
    };
    let ghost es = archive_entries(archive);
    let ghost fv = str_views(f@);
    let n = crate::zipio::archive_len(&archive);
    let mut files: Vec<ExtractedFile> = Vec::new();
    let mut logs: Vec<String> = Vec::new();
    let mut i: usize = 0;
    proof {
        assert(es.take(0) =~= Seq::<(Seq<char>, bool, Seq<u8>, bool, bool)>::empty());
        assert(files@.map_values(|x: ExtractedFile| x@) =~= Seq::<(Seq<char>, Seq<u8>)>::empty());
        assert(str_views(logs@) =~= Seq::<Seq<char>>::empty());
    }
    while i < n
        invariant
            archive_entries(archive) == es,
            parsed_entries(bytes@) == Some(es),
            fv == str_views(f@),
            n == es.len(),
            i <= n,
            forall|k: int|
                0 <= k < i ==> ((#[trigger] es[k]).3 && (entry_eligible(es[k].0, es[k].1, fv)
                    && path_file_name(es[k].0) is Some ==> es[k].4)),
            files@.map_values(|x: ExtractedFile| x@) == extracted_of(es.take(i as int), fv),
            str_views(logs@) == archive_logs(es.take(i as int), fv, out_dir@),
        decreases n - i,
    {
        let meta = match crate::zipio::entry_meta(&mut archive, i) {
            Ok(m) => m,
            Err(_) => {
                proof {
                    assert(!es[i as int].3);
                    assert(!walk_reads_ok(es, fv));
                }
                return Err(EngineError::ArchiveReadFailure);
            },
        };
        let name = meta.0;
        let is_file = meta.1;
        let ghost nv = name@;
        proof {
            assert(nv == es[i as int].0);
            assert(is_file == es[i as int].1);
            lemma_archive_step(es, fv, out_dir@, i as int);
        }
        let ghost filesv = files@.map_values(|x: ExtractedFile| x@);
        let ghost logsv = str_views(logs@);
        let marked = crate::text::contains_sub(name.as_str(), "__MACOSX");
        if !marked && is_file {
            let ext = crate::pathname::path_ext_exec(name.as_str());
            let matched = crate::filter::filter_matches_exec(f, &ext);
            proof {
                assert(matched == filter_matches(fv, path_ext(nv)));
            }
            if matched {
                match crate::pathname::path_file_name_exec(name.as_str()) {
                    Some(base) => {
                        let data = match crate::zipio::entry_data(&mut archive, i) {
                            Ok(d) => d,
                            Err(_) => {
                                proof {
                                    assert(entry_eligible(es[i as int].0, es[i as int].1, fv));
                                    assert(!es[i as int].4);
                                    assert(!walk_reads_ok(es, fv));
                                }
                                return Err(EngineError::ArchiveReadFailure);
                            },
                        };
                        let line = extracted_line_exec(out_dir, base.as_str());
                        let ghost bv = base@;
                        let ghost lv = line@;
                        files.push(ExtractedFile { name: base, data });
                        logs.push(line);
                        proof {
                            assert(files@.map_values(|x: ExtractedFile| x@) =~= filesv.push(
                                (bv, es[i as int].2),
                            ));
                            assert(str_views(logs@) =~= logsv.push(lv));
                        }
                    },
                    None => {
                        let line = warning_line_exec(name.as_str());
                        let ghost lv = line@;
                        logs.push(line);
                        proof {
                            assert(str_views(logs@) =~= logsv.push(lv));
                        }
                    },
                }
            }
        }
        proof {
            assert(es[i as int].3);
            assert(entry_eligible(es[i as int].0, es[i as int].1, fv) && path_file_name(
                es[i as int].0,
            ) is Some ==> es[i as int].4);
        }
        i = i + 1;
    }
    proof {
        assert(es.take(n as int) =~= es);
        assert(walk_reads_ok(es, fv));
    }
    Ok(ArchiveOutcome { files, logs })
}

} // verus!
