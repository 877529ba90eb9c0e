//! The records that flow through the pipeline.

use vstd::prelude::*;
use crate::coercion::{coerce_value, kind_of_value, normal_text, ResolvedValue};

verus! {

/// A half-open range of character positions in a source text.
#[derive(Clone, Copy, Debug, PartialEq, Eq, Structural)]
pub struct CharInterval {
    pub start_pos: usize,
    pub end_pos: usize,
}

impl CharInterval {
    pub fn new(start_pos: usize, end_pos: usize) -> (r: Self)
        ensures
            r.start_pos == start_pos,
            r.end_pos == end_pos,
    {
        CharInterval { start_pos, end_pos }
    }

    /// Two intervals overlap when they are equal or share a position.
    pub open spec fn overlaps(self, other: CharInterval) -> bool {
        self == other || (self.start_pos < other.end_pos && other.start_pos < self.end_pos)
    }

    pub fn overlaps_with(&self, other: &CharInterval) -> (r: bool)
        ensures
            r == self.overlaps(*other),
    {
        (self.start_pos == other.start_pos && self.end_pos == other.end_pos) || (self.start_pos
            < other.end_pos && other.start_pos < self.end_pos)
    }

    /// Whether the interval lies inside `outer`.
    pub open spec fn within(self, outer: CharInterval) -> bool {
        outer.start_pos <= self.start_pos && self.end_pos <= outer.end_pos
    }

    pub fn is_within(&self, outer: &CharInterval) -> (r: bool)
        ensures
            r == self.within(*outer),
    {
        outer.start_pos <= self.start_pos && self.end_pos <= outer.end_pos
    }
}

/// How an extraction was anchored in its source.
///
/// A fuzzy score is a similarity in thousandths, from 0 to 1000.
#[derive(Clone, Copy, Debug, PartialEq, Eq, Structural)]
pub enum AlignmentStatus {
    Exact,
    Fuzzy(u32),
    Unaligned,
}

impl AlignmentStatus {
    /// Confidence rank: exact matches first, then fuzzy matches by score,
    /// unaligned records last.
    pub open spec fn rank(self) -> nat {
        match self {
            AlignmentStatus::Exact => 2 + u32::MAX as nat,
            AlignmentStatus::Fuzzy(score) => 1 + score as nat,
            AlignmentStatus::Unaligned => 0,
        }
    }

    pub fn confidence(&self) -> (r: u64)
        ensures
            r == self.rank(),
    {
        match self {
            AlignmentStatus::Exact => 2 + u32::MAX as u64,
            AlignmentStatus::Fuzzy(score) => 1 + *score as u64,
            AlignmentStatus::Unaligned => 0,
        }
    }
}

/// The mathematical content of an [`Extraction`].
pub ghost struct ExtractionView {
    pub class: Seq<char>,
    pub text: Seq<char>,
    pub interval: Option<CharInterval>,
    pub status: AlignmentStatus,
    pub attributes: Seq<(Seq<char>, Seq<char>)>,
}

/// One record pulled from a text: its class, its text, where the text was
/// found, and any further named values that came with it.
#[derive(Debug)]
pub struct Extraction {
    pub extraction_class: String,
    pub extraction_text: String,
    pub char_interval: Option<CharInterval>,
    pub alignment_status: AlignmentStatus,
    pub attributes: Vec<(String, String)>,
}

/// The content of a list of attribute pairs.
pub open spec fn pairs_view(pairs: Seq<(String, String)>) -> Seq<(Seq<char>, Seq<char>)> {
    Seq::new(pairs.len(), |i: int| (pairs[i].0@, pairs[i].1@))
}

/// The contents of a list of extractions.
pub open spec fn extraction_views(items: Seq<Extraction>) -> Seq<ExtractionView> {
    Seq::new(items.len(), |i: int| items[i]@)
}

impl View for Extraction {
    type V = ExtractionView;

    open spec fn view(&self) -> ExtractionView {
        ExtractionView {
            class: self.extraction_class@,
            text: self.extraction_text@,
            interval: self.char_interval,
            status: self.alignment_status,
            attributes: pairs_view(self.attributes@),
        }
    }
}

/// A copy of a list of attribute pairs.
pub fn clone_pairs(pairs: &Vec<(String, String)>) -> (r: Vec<(String, String)>)
    ensures
        r@ == pairs@,
{
    let mut r: Vec<(String, String)> = Vec::new();
    let mut i: usize = 0;
    while i < pairs.len()
        invariant
            i <= pairs.len(),
            r@ == pairs@.take(i as int),
        decreases pairs.len() - i,
    {
        let k = pairs[i].0.clone();
        let v = pairs[i].1.clone();
        r.push((k, v));
        i = i + 1;
    }
    assert(pairs@.take(pairs.len() as int) == pairs@);
    r
}

impl Clone for Extraction {
    fn clone(&self) -> (r: Self)
        ensures
            r@ == self@,
            r.extraction_class == self.extraction_class,
            r.extraction_text == self.extraction_text,
            r.attributes@ == self.attributes@,
    {
        Extraction {
            extraction_class: self.extraction_class.clone(),
            extraction_text: self.extraction_text.clone(),
            char_interval: self.char_interval,
            alignment_status: self.alignment_status,
            attributes: clone_pairs(&self.attributes),
        }
    }
}

impl Extraction {
    /// A fresh, unaligned extraction without attributes.
    pub fn new(extraction_class: String, extraction_text: String) -> (r: Self)
        ensures
            r.extraction_class == extraction_class,
            r.extraction_text == extraction_text,
            r.char_interval is None,
            r.alignment_status == AlignmentStatus::Unaligned,
            r.attributes@.len() == 0,
    {
        Extraction {
            extraction_class,
            extraction_text,
            char_interval: None,
            alignment_status: AlignmentStatus::Unaligned,
            attributes: Vec::new(),
        }
    }

    /// The extraction's text as a value: whether it is a number, a boolean
    /// or plain text, and its normalised text. The extraction keeps its
    /// text as the response gave it, so that it can be found in the source;
    /// the normalised text is to be had here.
    pub fn normalized_value(&self) -> (r: ResolvedValue)
        ensures
            r.kind == kind_of_value(self.extraction_text@),
            r.text@ == normal_text(self.extraction_text@),
    {
        coerce_value(self.extraction_text.as_str())
    }

    /// Whether the extraction has been given a character interval.
    pub fn is_aligned(&self) -> (r: bool)
        ensures
            r == self.char_interval is Some,
    {
        self.char_interval.is_some()
    }
}

/// A copy of a list of extractions.
pub fn clone_extractions(items: &Vec<Extraction>) -> (r: Vec<Extraction>)
    ensures
        extraction_views(r@) == extraction_views(items@),
{
    let mut r: Vec<Extraction> = Vec::new();
    let mut i: usize = 0;
    while i < items.len()
        invariant
            i <= items.len(),
            r.len() == i,
            forall|k: int| 0 <= k < i ==> (#[trigger] r[k])@ == items[k]@,
        decreases items.len() - i,
    {
        r.push(items[i].clone());
        i = i + 1;
    }
    assert(extraction_views(r@) =~= extraction_views(items@));
    r
}

/// A worked example: a text and the extractions that are wanted from it.
#[derive(Debug)]
pub struct ExampleData {
    pub text: String,
    pub extractions: Vec<Extraction>,
}

impl ExampleData {
    pub fn new(text: String, extractions: Vec<Extraction>) -> (r: Self)
        ensures
            r.text == text,
            r.extractions == extractions,
    {
        ExampleData { text, extractions }
    }
}

/// A text handed in for extraction.
#[derive(Debug)]
pub struct Document {
    pub document_id: Option<String>,
    pub text: String,
    pub additional_context: Option<String>,
}

impl Document {
    pub fn new(text: String) -> (r: Self)
        ensures
            r.text == text,
            r.document_id is None,
            r.additional_context is None,
    {
        Document { document_id: None, text, additional_context: None }
    }
}

/// A text together with the extractions found in it.
#[derive(Debug)]
pub struct AnnotatedDocument {
    pub document_id: Option<String>,
    pub text: String,
    pub extractions: Option<Vec<Extraction>>,
}

impl AnnotatedDocument {
    /// The extractions of a document, none when the document carries none.
    pub open spec fn items(self) -> Seq<Extraction> {
        match self.extractions {
            Some(v) => v@,
            None => Seq::empty(),
        }
    }

    pub fn with_extractions(extractions: Vec<Extraction>, text: String) -> (r: Self)
        ensures
            r.text == text,
            r.document_id is None,
            r.extractions == Some(extractions),
    {
        AnnotatedDocument { document_id: None, text, extractions: Some(extractions) }
    }

    pub fn extraction_count(&self) -> (r: usize)
        ensures
            r == self.items().len(),
    {
        match &self.extractions {
            Some(v) => v.len(),
            None => 0,
        }
    }
}

} // verus!
