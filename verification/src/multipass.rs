//! Accumulating the extractions of a chunk over several passes.
//!
//! A chunk that gave fewer extractions than `multipass_min_extractions` is
//! processed again in the next pass. What a later pass finds is added to
//! what the chunk already has, one extraction at a time:
//!
//! - an extraction that duplicates none of those already there is added;
//! - an extraction that duplicates one already there is a duplicate: it
//!   replaces the first one that it duplicates if its quality reaches the
//!   threshold and it is aligned with more confidence, and is left out
//!   otherwise.
//!
//! So the threshold bears on duplicates only: what a pass finds for the
//! first time is kept whatever its quality, in a later pass as in the
//! first.
//!
//! Two extractions are duplicates when they have the same class and text
//! and their intervals are equal or overlap; an extraction without an
//! interval can duplicate any other. The quality of an extraction, in
//! thousandths, is 0 when its text is empty or all spaces, else 1000 for an
//! exact match, the score of a fuzzy match, and 250 when it is not aligned.

use vstd::prelude::*;
use crate::data::{
    extraction_views,
    AlignmentStatus,
    CharInterval,
    Extraction,
    ExtractionView,
};
use crate::repair::first_non_space;
use crate::text::{char_is_space, to_chars};

verus! {

/// Settings of multi-pass refinement. The quality threshold is in
/// thousandths.
#[derive(Clone, Copy, Debug)]
pub struct MultiPassConfig {
    pub enable_multipass: bool,
    pub extraction_passes: usize,
    pub multipass_min_extractions: usize,
    pub multipass_quality_threshold: u32,
}

impl Default for MultiPassConfig {
    fn default() -> (r: Self)
        ensures
            !r.enable_multipass,
            r.extraction_passes == 1,
            r.multipass_min_extractions == 1,
            r.multipass_quality_threshold == 300,
    {
        MultiPassConfig {
            enable_multipass: false,
            extraction_passes: 1,
            multipass_min_extractions: 1,
            multipass_quality_threshold: 300,
        }
    }
}

/// Whether two intervals are equal or overlap, or one of them is missing.
pub open spec fn intervals_meet(a: Option<CharInterval>, b: Option<CharInterval>) -> bool {
    match (a, b) {
        (Some(x), Some(y)) => x.overlaps(y),
        _ => true,
    }
}

/// Whether two extractions are duplicates of each other.
pub open spec fn is_duplicate(a: ExtractionView, b: ExtractionView) -> bool {
    a.class == b.class && a.text == b.text && intervals_meet(a.interval, b.interval)
}

/// The index of the first extraction at or after `from` that duplicates
/// `e`, or the length of the list.
pub open spec fn first_duplicate(acc: Seq<ExtractionView>, e: ExtractionView, from: int) -> int
    decreases acc.len() - from,
{
    if from < 0 || from >= acc.len() || is_duplicate(acc[from], e) {
        from
    } else {
        first_duplicate(acc, e, from + 1)
    }
}

/// The quality of an extraction, in thousandths.
pub open spec fn quality(e: ExtractionView) -> nat {
    if first_non_space(e.text, 0) >= e.text.len() {
        0
    } else {
        match e.status {
            AlignmentStatus::Exact => 1000,
            AlignmentStatus::Fuzzy(score) => if score < 1000 {
                score as nat
            } else {
                1000
            },
            AlignmentStatus::Unaligned => 250,
        }
    }
}

/// The list after one more extraction was considered.
pub open spec fn absorb(acc: Seq<ExtractionView>, e: ExtractionView, threshold: nat) -> Seq<ExtractionView> {
    let i = first_duplicate(acc, e, 0);
    if i >= acc.len() {
        acc.push(e)
    } else if quality(e) >= threshold && e.status.rank() > acc[i].status.rank() {
        acc.update(i, e)
    } else {
        acc
    }
}

/// The list after the first `n` of the new extractions were considered.
pub open spec fn merged(acc: Seq<ExtractionView>, new: Seq<ExtractionView>, n: int, threshold: nat) -> Seq<
    ExtractionView,
>
    decreases n,
{
    if n <= 0 {
        acc
    } else {
        absorb(merged(acc, new, n - 1, threshold), new[n - 1], threshold)
    }
}

/// Whether a chunk with `count` extractions is processed again.
pub open spec fn needs_refinement(config: MultiPassConfig, passes_done: int, count: int) -> bool {
    config.enable_multipass && passes_done < config.extraction_passes && count
        < config.multipass_min_extractions
}

/// The chunks among the first `n` that are processed again, in order.
pub open spec fn refinement_ids(config: MultiPassConfig, passes_done: int, counts: Seq<usize>, n: int) -> Seq<
    usize,
>
    decreases n,
{
    if n <= 0 {
        Seq::empty()
    } else if needs_refinement(config, passes_done, counts[n - 1] as int) {
        refinement_ids(config, passes_done, counts, n - 1).push((n - 1) as usize)
    } else {
        refinement_ids(config, passes_done, counts, n - 1)
    }
}

fn intervals_touch(a: &Option<CharInterval>, b: &Option<CharInterval>) -> (r: bool)
    ensures
        r == intervals_meet(*a, *b),
{
    match (a, b) {
        (Some(x), Some(y)) => x.overlaps_with(y),
        _ => true,
    }
}

fn duplicates(a: &Extraction, b: &Extraction) -> (r: bool)
    ensures
        r == is_duplicate(a@, b@),
{
    a.extraction_class == b.extraction_class && a.extraction_text == b.extraction_text
        && intervals_touch(&a.char_interval, &b.char_interval)
}

/// The quality of an extraction, in thousandths.
pub fn quality_of(e: &Extraction) -> (r: u32)
    ensures
        r == quality(e@),
{
    let chars = to_chars(e.extraction_text.as_str());
    let mut k: usize = 0;
    while k < chars.len() && char_is_space(chars[k])
        invariant
            k <= chars.len(),
            first_non_space(chars@, 0) == first_non_space(chars@, k as int),
        decreases chars.len() - k,
    {
        k = k + 1;
    }
    if k >= chars.len() {
        return 0;
    }
    match e.alignment_status {
        AlignmentStatus::Exact => 1000,
        AlignmentStatus::Fuzzy(score) => if score < 1000 {
            score
        } else {
            1000
        },
        AlignmentStatus::Unaligned => 250,
    }
}

/// Adds the extractions of a later pass to those that a chunk already has.
pub fn merge_pass(acc: &mut Vec<Extraction>, new: &Vec<Extraction>, threshold: u32)
    ensures
        extraction_views(final(acc)@) == merged(
            extraction_views(old(acc)@),
            extraction_views(new@),
            new.len() as int,
            threshold as nat,
        ),
{
    let ghost start = extraction_views(acc@);
    let ghost incoming = extraction_views(new@);
    let mut n: usize = 0;
    while n < new.len()
        invariant
            n <= new.len(),
            incoming == extraction_views(new@),
            extraction_views(acc@) == merged(start, incoming, n as int, threshold as nat),
        decreases new.len() - n,
    {
        let e = &new[n];
        let ghost before = extraction_views(acc@);
        assert(incoming[n as int] == e@);
        let mut i: usize = 0;
        while i < acc.len() && !duplicates(&acc[i], e)
            invariant
                i <= acc.len(),
                before == extraction_views(acc@),
                first_duplicate(before, e@, 0) == first_duplicate(before, e@, i as int),
            decreases acc.len() - i,
        {
            assert(before[i as int] == acc@[i as int]@);
            i = i + 1;
        }
        assert(i < acc.len() ==> before[i as int] == acc@[i as int]@);
        assert(i == first_duplicate(before, e@, 0));
        if i >= acc.len() {
            acc.push(e.clone());
            assert(extraction_views(acc@) =~= before.push(e@));
        } else if e.alignment_status.confidence() > acc[i].alignment_status.confidence() && quality_of(e)
            >= threshold {
            acc.set(i, e.clone());
            assert(extraction_views(acc@) =~= before.update(i as int, e@));
        }
        n = n + 1;
    }
}

/// The chunks that are processed again after `passes_done` passes, given
/// how many extractions each chunk has.
pub fn select_for_refinement(config: &MultiPassConfig, passes_done: usize, counts: &Vec<usize>) -> (r: Vec<
    usize,
>)
    ensures
        r@ == refinement_ids(*config, passes_done as int, counts@, counts.len() as int),
{
    let mut out: Vec<usize> = Vec::new();
    let mut i: usize = 0;
    while i < counts.len()
        invariant
            i <= counts.len(),
            out@ == refinement_ids(*config, passes_done as int, counts@, i as int),
        decreases counts.len() - i,
    {
        if config.enable_multipass && passes_done < config.extraction_passes && counts[i]
            < config.multipass_min_extractions {
            out.push(i);
        }
        i = i + 1;
    }
    out
}

/// An extraction that duplicates one already there does not make the list
/// longer: duplicates across passes collapse to one. Of the new extraction
/// and the first that it duplicates, the one that stays is the new one if
/// its quality reaches the threshold and it is aligned with more
/// confidence, and the one already there otherwise; nothing else changes.
pub proof fn lemma_duplicate_collapses(acc: Seq<ExtractionView>, e: ExtractionView, threshold: nat, i: int)
    requires
        0 <= i < acc.len(),
        is_duplicate(acc[i], e),
    ensures
        absorb(acc, e, threshold).len() == acc.len(),
        ({
            let first = first_duplicate(acc, e, 0);
            &&& 0 <= first <= i
            &&& is_duplicate(acc[first], e)
            &&& forall|k: int| 0 <= k < first ==> !is_duplicate(#[trigger] acc[k], e)
            &&& absorb(acc, e, threshold)[first] == if quality(e) >= threshold && e.status.rank()
                > acc[first].status.rank() {
                e
            } else {
                acc[first]
            }
            &&& forall|k: int| 0 <= k < acc.len() && k != first ==> absorb(acc, e, threshold)[k] == acc[k]
        }),
{
    lemma_first_duplicate(acc, e, 0, i);
    lemma_first_duplicate_bounds(acc, e, 0);
    lemma_first_duplicate_is_first(acc, e, 0);
}

/// Where one extraction is held and a later pass brings a duplicate that
/// reaches the threshold, one extraction is held afterwards: the one that
/// is aligned with more confidence, and the one already held if neither is.
pub proof fn lemma_better_duplicate_stays(held: ExtractionView, e: ExtractionView, threshold: nat)
    requires
        is_duplicate(held, e),
        quality(e) >= threshold,
    ensures
        absorb(seq![held], e, threshold) == seq![
            if e.status.rank() > held.status.rank() {
                e
            } else {
                held
            },
        ],
{
    let acc = seq![held];
    assert(first_duplicate(acc, e, 0) == 0);
    assert(absorb(acc, e, threshold) =~= seq![
        if e.status.rank() > held.status.rank() {
            e
        } else {
            held
        },
    ]);
}

/// An extraction that duplicates none of those already there is added at
/// the end, whatever its quality.
pub proof fn lemma_fresh_is_added(acc: Seq<ExtractionView>, e: ExtractionView, threshold: nat)
    requires
        forall|i: int| 0 <= i < acc.len() ==> !is_duplicate(#[trigger] acc[i], e),
    ensures
        absorb(acc, e, threshold) == acc.push(e),
{
    lemma_no_duplicate(acc, e, 0);
}

/// What a pass finds for a chunk that holds nothing is all kept, in order,
/// as long as no two of the extractions found are duplicates of each other.
pub proof fn lemma_merge_into_empty(new: Seq<ExtractionView>, n: int, threshold: nat)
    requires
        0 <= n <= new.len(),
        forall|i: int, j: int| 0 <= i < j < n ==> !is_duplicate(#[trigger] new[i], #[trigger] new[j]),
    ensures
        merged(Seq::empty(), new, n, threshold) == new.take(n),
    decreases n,
{
    if n > 0 {
        lemma_merge_into_empty(new, n - 1, threshold);
        let prior = new.take(n - 1);
        assert forall|i: int| 0 <= i < prior.len() implies !is_duplicate(#[trigger] prior[i], new[n - 1]) by {
            assert(prior[i] == new[i]);
        }
        lemma_fresh_is_added(prior, new[n - 1], threshold);
        assert(prior.push(new[n - 1]) =~= new.take(n));
    } else {
        assert(new.take(0) =~= Seq::<ExtractionView>::empty());
    }
}

/// What was there before a merge is still there after it, at the same
/// place, or has been replaced by a duplicate with more confidence.
pub proof fn lemma_merge_keeps(
    acc: Seq<ExtractionView>,
    new: Seq<ExtractionView>,
    n: int,
    threshold: nat,
    i: int,
)
    requires
        0 <= n <= new.len(),
        0 <= i < acc.len(),
    ensures
        acc.len() <= merged(acc, new, n, threshold).len() <= acc.len() + n,
        merged(acc, new, n, threshold)[i].class == acc[i].class,
        merged(acc, new, n, threshold)[i].text == acc[i].text,
        merged(acc, new, n, threshold)[i].status.rank() >= acc[i].status.rank(),
    decreases n,
{
    if n > 0 {
        lemma_merge_keeps(acc, new, n - 1, threshold, i);
        let prior = merged(acc, new, n - 1, threshold);
        lemma_first_duplicate_bounds(prior, new[n - 1], 0);
    }
}

proof fn lemma_first_duplicate_bounds(acc: Seq<ExtractionView>, e: ExtractionView, from: int)
    requires
        0 <= from <= acc.len(),
    ensures
        from <= first_duplicate(acc, e, from) <= acc.len(),
        first_duplicate(acc, e, from) < acc.len() ==> is_duplicate(acc[first_duplicate(acc, e, from)], e),
    decreases acc.len() - from,
{
    if from < acc.len() && !is_duplicate(acc[from], e) {
        lemma_first_duplicate_bounds(acc, e, from + 1);
    }
}

proof fn lemma_first_duplicate_is_first(acc: Seq<ExtractionView>, e: ExtractionView, from: int)
    requires
        0 <= from <= acc.len(),
    ensures
        forall|k: int| from <= k < first_duplicate(acc, e, from) ==> !is_duplicate(#[trigger] acc[k], e),
    decreases acc.len() - from,
{
    if from < acc.len() && !is_duplicate(acc[from], e) {
        lemma_first_duplicate_is_first(acc, e, from + 1);
    }
}

proof fn lemma_first_duplicate(acc: Seq<ExtractionView>, e: ExtractionView, from: int, i: int)
    requires
        0 <= from <= i < acc.len(),
        is_duplicate(acc[i], e),
    ensures
        from <= first_duplicate(acc, e, from) <= i,
    decreases acc.len() - from,
{
    if from < i && !is_duplicate(acc[from], e) {
        lemma_first_duplicate(acc, e, from + 1, i);
    }
}

proof fn lemma_no_duplicate(acc: Seq<ExtractionView>, e: ExtractionView, from: int)
    requires
        0 <= from <= acc.len(),
        forall|i: int| 0 <= i < acc.len() ==> !is_duplicate(#[trigger] acc[i], e),
    ensures
        first_duplicate(acc, e, from) == acc.len(),
    decreases acc.len() - from,
{
    if from < acc.len() {
        lemma_no_duplicate(acc, e, from + 1);
    }
}

} // verus!
