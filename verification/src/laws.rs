//! Properties of the engine, stated once and proved for all inputs.

use vstd::prelude::*;
use crate::text::{has_substring, lower_of};
use crate::filter::filter_matches;
use crate::pathname::path_ext;
use crate::engine::{archive_logs, entry_eligible, extracted_of, marker};

verus! {

/// An entry is eligible exactly when it is a plain file, its path is free
/// of the metadata marker, and the filter is empty or holds the entry's
/// lower-cased extension.
pub proof fn lemma_eligibility(name: Seq<char>, is_file: bool, f: Seq<Seq<char>>)
    ensures
        entry_eligible(name, is_file, f) <==> (!has_substring(name, marker()) && is_file && (
        f.len() == 0 || (path_ext(name) matches Some(e) && f.contains(lower_of(e))))),
{
}

/// The filter is case-insensitive: two extensions with the same lower-cased
/// form pass exactly the same filters.
pub proof fn lemma_filter_same_fold(f: Seq<Seq<char>>, e1: Seq<char>, e2: Seq<char>)
    requires
        lower_of(e1) == lower_of(e2),
    ensures
        filter_matches(f, Some(e1)) == filter_matches(f, Some(e2)),
{
}

/// An entry whose path holds the metadata marker anywhere is never
/// eligible, whatever the filter says and whatever kind of entry it is.
pub proof fn lemma_marker_never_extracted(name: Seq<char>, is_file: bool, f: Seq<Seq<char>>)
    requires
        has_substring(name, marker()),
    ensures
        !entry_eligible(name, is_file, f),
{
}

/// A directory entry is never eligible, whatever the filter says.
pub proof fn lemma_directory_never_extracted(name: Seq<char>, f: Seq<Seq<char>>)
    ensures
        !entry_eligible(name, false, f),
{
}

/// An ineligible final entry contributes neither a produced file nor a
/// progress line: it is not extracted and not counted.
pub proof fn lemma_skipped_entry_adds_nothing(
    es: Seq<(Seq<char>, bool, Seq<u8>, bool, bool)>,
    f: Seq<Seq<char>>,
    dir: Seq<char>,
)
    requires
        es.len() > 0,
        !entry_eligible(es.last().0, es.last().1, f),
    ensures
        extracted_of(es, f) == extracted_of(es.drop_last(), f),
        archive_logs(es, f, dir) == archive_logs(es.drop_last(), f, dir),
{
}

/// The contents of the output directory, as a map from file name to bytes,
/// after the produced files are written in order: a later write to the same
/// name wins.
pub open spec fn apply_writes(m: Map<Seq<char>, Seq<u8>>, outs: Seq<(Seq<char>, Seq<u8>)>) -> Map<
    Seq<char>,
    Seq<u8>,
>
    decreases outs.len(),
{
    if outs.len() == 0 {
        m
    } else {
        apply_writes(m, outs.drop_last()).insert(outs.last().0, outs.last().1)
    }
}

proof fn lemma_apply_writes_union(m: Map<Seq<char>, Seq<u8>>, outs: Seq<(Seq<char>, Seq<u8>)>)
    ensures
        apply_writes(m, outs) == m.union_prefer_right(
            apply_writes(Map::<Seq<char>, Seq<u8>>::empty(), outs),
        ),
    decreases outs.len(),
{
    if outs.len() == 0 {
        assert(m.union_prefer_right(Map::<Seq<char>, Seq<u8>>::empty()) =~= m);
    } else {
        lemma_apply_writes_union(m, outs.drop_last());
        let fp = apply_writes(Map::<Seq<char>, Seq<u8>>::empty(), outs.drop_last());
        assert(m.union_prefer_right(fp).insert(outs.last().0, outs.last().1)
            =~= m.union_prefer_right(fp.insert(outs.last().0, outs.last().1)));
    }
}

/// Writing the same produced file set twice leaves the output directory
/// exactly as writing it once does: re-running an extraction with the same
/// inputs overwrites, it does not accumulate.
pub proof fn lemma_writes_idempotent(m: Map<Seq<char>, Seq<u8>>, outs: Seq<(Seq<char>, Seq<u8>)>)
    ensures
        apply_writes(apply_writes(m, outs), outs) == apply_writes(m, outs),
{
    let fm = apply_writes(Map::<Seq<char>, Seq<u8>>::empty(), outs);
    lemma_apply_writes_union(m, outs);
    lemma_apply_writes_union(apply_writes(m, outs), outs);
    assert(m.union_prefer_right(fm).union_prefer_right(fm) =~= m.union_prefer_right(fm));
}

} // verus!
