//! Turning a model response into extraction records.
//!
//! A response is taken out of its code fence and parsed as JSON. If it does
//! not parse, it is parsed again without trailing commas, and then again
//! with its open brackets closed as well. The document must be an array of
//! objects, or a single object, which is treated as an array of one.
//!
//! Each object is a row. A field of a row whose value is a string, a number
//! or a boolean, and whose name is among the expected fields, gives one
//! extraction: the field's name is the class, the value's text is the text.
//! A row that has no such field gives one extraction from its first field
//! with such a value. Every other field with such a value becomes an
//! attribute of the row's extractions, with its value normalised. Fields
//! with other values are reported and left out.
//!
//! The text of an extraction is the value as the response gave it, because
//! it is that text which is looked for in the source. Its normalised form
//! is given by `Extraction::normalized_value`.

use vstd::prelude::*;
use vstd::string::StringExecFns;
use crate::coercion::{coerce_value, normal_text};
use crate::data::{
    clone_pairs,
    extraction_views,
    pairs_view,
    AlignmentStatus,
    Extraction,
    ExtractionView,
};
use crate::json::{json_document, parse_document, JsonValue};
use crate::repair::{
    balance,
    balance_chars,
    drop_trailing_commas,
    drop_trailing_commas_chars,
    strip_fence,
    strip_fence_chars,
};
use crate::text::{from_chars, to_chars};

verus! {

/// Settings of the resolver.
#[derive(Clone, Copy, Debug)]
pub struct ValidationConfig {
    /// Whether the caller should keep a copy of the raw response.
    pub save_raw_outputs: bool,
}

impl Default for ValidationConfig {
    fn default() -> (r: Self)
        ensures
            !r.save_raw_outputs,
    {
        ValidationConfig { save_raw_outputs: false }
    }
}

/// What was noticed while a response was resolved.
#[derive(Clone, Copy, Debug, PartialEq, Eq, Structural)]
pub enum IssueKind {
    /// The response parsed only after trailing commas were dropped.
    TrailingCommaRemoved,
    /// The response parsed only after open brackets were closed.
    BracketsClosed,
    /// The document was a single object and was treated as an array of one.
    LoneObjectWrapped,
    /// A row lacks an expected field.
    MissingField,
    /// A field's value is null, an array or an object.
    UnusableValue,
    /// An element of the array is not an object.
    NotAnObject,
}

/// One thing that was noticed: its kind, the row it concerns, the field it
/// concerns.
#[derive(Debug)]
pub struct ValidationIssue {
    pub kind: IssueKind,
    pub row: Option<usize>,
    pub field: Option<String>,
}

/// The content of a [`ValidationIssue`].
pub ghost struct IssueView {
    pub kind: IssueKind,
    pub row: Option<usize>,
    pub field: Option<Seq<char>>,
}

impl View for ValidationIssue {
    type V = IssueView;

    open spec fn view(&self) -> IssueView {
        IssueView {
            kind: self.kind,
            row: self.row,
            field: match self.field {
                Some(name) => Some(name@),
                None => None,
            },
        }
    }
}

/// The contents of a list of issues.
pub open spec fn issue_views(issues: Seq<ValidationIssue>) -> Seq<IssueView> {
    Seq::new(issues.len(), |i: int| issues[i]@)
}

/// What a kind of issue is called in messages.
pub open spec fn kind_label(kind: IssueKind) -> Seq<char> {
    match kind {
        IssueKind::TrailingCommaRemoved => "removed trailing commas"@,
        IssueKind::BracketsClosed => "closed open brackets"@,
        IssueKind::LoneObjectWrapped => "treated a single object as a list of one"@,
        IssueKind::MissingField => "expected field is missing"@,
        IssueKind::UnusableValue => "field value is not a string, number or boolean"@,
        IssueKind::NotAnObject => "list element is not an object"@,
    }
}

impl ValidationIssue {
    /// The message of the issue: what it is called, then the field's name
    /// where it concerns a field.
    pub fn message(&self) -> (r: String)
        ensures
            r@ == kind_label(self.kind) + match self.field {
                Some(name) => ": "@ + name@,
                None => Seq::empty(),
            },
    {
        let label = match self.kind {
            IssueKind::TrailingCommaRemoved => "removed trailing commas",
            IssueKind::BracketsClosed => "closed open brackets",
            IssueKind::LoneObjectWrapped => "treated a single object as a list of one",
            IssueKind::MissingField => "expected field is missing",
            IssueKind::UnusableValue => "field value is not a string, number or boolean",
            IssueKind::NotAnObject => "list element is not an object",
        };
        let mut out = String::from_str(label);
        match &self.field {
            Some(name) => {
                let ghost before = out@;
                out.append(": ");
                out.append(name.as_str());
                assert(out@ =~= before + (": "@ + name@));
            },
            None => {
                assert(out@ + Seq::<char>::empty() =~= out@);
            },
        }
        out
    }
}

/// What resolving a response found besides the records.
#[derive(Debug)]
pub struct ValidationResult {
    pub errors: Vec<ValidationIssue>,
    pub warnings: Vec<ValidationIssue>,
    pub raw_output_file: Option<String>,
}

impl ValidationResult {
    /// The same result with the place where the raw response was kept.
    pub fn with_raw_output_file(self, location: String) -> (r: Self)
        ensures
            r.errors == self.errors,
            r.warnings == self.warnings,
            r.raw_output_file == Some(location),
    {
        ValidationResult { errors: self.errors, warnings: self.warnings, raw_output_file: Some(location) }
    }
}

/// No records could be made of a response.
#[derive(Debug)]
pub struct ResolutionError {
    /// The parser's last message, or what was wrong with the document.
    pub message: String,
}

// ---------------------------------------------------------------------------
// Rows and fields
// ---------------------------------------------------------------------------

/// Whether a name is among the expected fields.
pub open spec fn is_expected(name: Seq<char>, expected: Seq<String>) -> bool {
    exists|i: int| 0 <= i < expected.len() && (#[trigger] expected[i])@ == name
}

/// Whether field `i` has a usable value and an expected name.
pub open spec fn recognized(fields: Seq<(String, JsonValue)>, expected: Seq<String>, i: int) -> bool {
    fields[i].1.is_scalar() && is_expected(fields[i].0@, expected)
}

/// Whether one of the first `n` fields is recognized.
pub open spec fn any_recognized(fields: Seq<(String, JsonValue)>, expected: Seq<String>, n: int) -> bool
    decreases n,
{
    n > 0 && (any_recognized(fields, expected, n - 1) || recognized(fields, expected, n - 1))
}

/// The index of the first field at or after `from` with a usable value, or
/// the number of fields.
pub open spec fn first_scalar(fields: Seq<(String, JsonValue)>, from: int) -> int
    decreases fields.len() - from,
{
    if from < 0 || from >= fields.len() || fields[from].1.is_scalar() {
        from
    } else {
        first_scalar(fields, from + 1)
    }
}

/// Whether field `i` gives an extraction: it is recognized, or no field of
/// the row is and it is the first with a usable value.
pub open spec fn yields_record(fields: Seq<(String, JsonValue)>, expected: Seq<String>, i: int) -> bool {
    recognized(fields, expected, i) || (!any_recognized(fields, expected, fields.len() as int) && i
        == first_scalar(fields, 0))
}

/// The attributes that the first `n` fields give: name and normalised value
/// of each field with a usable value that gives no extraction.
pub open spec fn attributes_upto(fields: Seq<(String, JsonValue)>, expected: Seq<String>, n: int) -> Seq<
    (Seq<char>, Seq<char>),
>
    decreases n,
{
    if n <= 0 {
        Seq::empty()
    } else if fields[n - 1].1.is_scalar() && !yields_record(fields, expected, n - 1) {
        attributes_upto(fields, expected, n - 1).push(
            (fields[n - 1].0@, normal_text(fields[n - 1].1.scalar_text())),
        )
    } else {
        attributes_upto(fields, expected, n - 1)
    }
}

/// The extraction that field `i` gives.
pub open spec fn record_at(fields: Seq<(String, JsonValue)>, expected: Seq<String>, i: int) -> ExtractionView {
    ExtractionView {
        class: fields[i].0@,
        text: fields[i].1.scalar_text(),
        interval: None,
        status: AlignmentStatus::Unaligned,
        attributes: attributes_upto(fields, expected, fields.len() as int),
    }
}

/// The extractions that the first `n` fields of a row give.
pub open spec fn records_upto(fields: Seq<(String, JsonValue)>, expected: Seq<String>, n: int) -> Seq<
    ExtractionView,
>
    decreases n,
{
    if n <= 0 {
        Seq::empty()
    } else if yields_record(fields, expected, n - 1) {
        records_upto(fields, expected, n - 1).push(record_at(fields, expected, n - 1))
    } else {
        records_upto(fields, expected, n - 1)
    }
}

/// Whether the row has a field of the given name.
pub open spec fn has_field(fields: Seq<(String, JsonValue)>, name: Seq<char>) -> bool {
    exists|j: int| 0 <= j < fields.len() && (#[trigger] fields[j]).0@ == name
}

/// One warning for each of the first `n` expected fields that the row
/// lacks.
pub open spec fn missing_upto(
    fields: Seq<(String, JsonValue)>,
    expected: Seq<String>,
    row: usize,
    n: int,
) -> Seq<IssueView>
    decreases n,
{
    if n <= 0 {
        Seq::empty()
    } else if !has_field(fields, expected[n - 1]@) {
        missing_upto(fields, expected, row, n - 1).push(
            IssueView { kind: IssueKind::MissingField, row: Some(row), field: Some(expected[n - 1]@) },
        )
    } else {
        missing_upto(fields, expected, row, n - 1)
    }
}

/// One warning for each of the first `n` fields whose value is not usable.
pub open spec fn unusable_upto(fields: Seq<(String, JsonValue)>, row: usize, n: int) -> Seq<IssueView>
    decreases n,
{
    if n <= 0 {
        Seq::empty()
    } else if !fields[n - 1].1.is_scalar() {
        unusable_upto(fields, row, n - 1).push(
            IssueView { kind: IssueKind::UnusableValue, row: Some(row), field: Some(fields[n - 1].0@) },
        )
    } else {
        unusable_upto(fields, row, n - 1)
    }
}

/// The extractions of one row.
pub open spec fn row_records(row: JsonValue, expected: Seq<String>) -> Seq<ExtractionView> {
    match row {
        JsonValue::Object(fields) => records_upto(fields@, expected, fields@.len() as int),
        _ => Seq::empty(),
    }
}

/// The warnings of one row: missing fields, then unusable values.
pub open spec fn row_warnings(row: JsonValue, expected: Seq<String>, index: usize) -> Seq<IssueView> {
    match row {
        JsonValue::Object(fields) => missing_upto(fields@, expected, index, expected.len() as int)
            + unusable_upto(fields@, index, fields@.len() as int),
        _ => Seq::empty(),
    }
}

/// The errors of one row: an element that is not an object is one.
pub open spec fn row_errors(row: JsonValue, index: usize) -> Seq<IssueView> {
    match row {
        JsonValue::Object(_) => Seq::empty(),
        _ => seq![IssueView { kind: IssueKind::NotAnObject, row: Some(index), field: None }],
    }
}

pub open spec fn rows_records(rows: Seq<JsonValue>, expected: Seq<String>, n: int) -> Seq<ExtractionView>
    decreases n,
{
    if n <= 0 {
        Seq::empty()
    } else {
        rows_records(rows, expected, n - 1) + row_records(rows[n - 1], expected)
    }
}

pub open spec fn rows_warnings(rows: Seq<JsonValue>, expected: Seq<String>, n: int) -> Seq<IssueView>
    decreases n,
{
    if n <= 0 {
        Seq::empty()
    } else {
        rows_warnings(rows, expected, n - 1) + row_warnings(rows[n - 1], expected, (n - 1) as usize)
    }
}

pub open spec fn rows_errors(rows: Seq<JsonValue>, n: int) -> Seq<IssueView>
    decreases n,
{
    if n <= 0 {
        Seq::empty()
    } else {
        rows_errors(rows, n - 1) + row_errors(rows[n - 1], (n - 1) as usize)
    }
}

/// What a document gives: records, warnings and errors.
pub ghost struct Mapped {
    pub records: Seq<ExtractionView>,
    pub warnings: Seq<IssueView>,
    pub errors: Seq<IssueView>,
}

/// What a parsed document gives, if it is an array or an object.
pub open spec fn mapped(document: JsonValue, expected: Seq<String>) -> Option<Mapped> {
    match document {
        JsonValue::Array(rows) => Some(
            Mapped {
                records: rows_records(rows@, expected, rows@.len() as int),
                warnings: rows_warnings(rows@, expected, rows@.len() as int),
                errors: rows_errors(rows@, rows@.len() as int),
            },
        ),
        JsonValue::Object(_) => Some(
            Mapped {
                records: row_records(document, expected),
                warnings: seq![
                    IssueView { kind: IssueKind::LoneObjectWrapped, row: None, field: None },
                ] + row_warnings(document, expected, 0),
                errors: Seq::empty(),
            },
        ),
        _ => None,
    }
}

fn name_expected(name: &String, expected: &Vec<String>) -> (r: bool)
    ensures
        r == is_expected(name@, expected@),
{
    let mut i: usize = 0;
    while i < expected.len()
        invariant
            i <= expected.len(),
            forall|k: int| 0 <= k < i ==> (#[trigger] expected@[k])@ != name@,
        decreases expected.len() - i,
    {
        if expected[i] == *name {
            return true;
        }
        i = i + 1;
    }
    false
}

fn field_present(fields: &Vec<(String, JsonValue)>, name: &String) -> (r: bool)
    ensures
        r == has_field(fields@, name@),
{
    let mut j: usize = 0;
    while j < fields.len()
        invariant
            j <= fields.len(),
            forall|k: int| 0 <= k < j ==> (#[trigger] fields@[k]).0@ != name@,
        decreases fields.len() - j,
    {
        if fields[j].0 == *name {
            return true;
        }
        j = j + 1;
    }
    false
}

/// Adds the extractions of one row to `out`.
fn map_row(fields: &Vec<(String, JsonValue)>, expected: &Vec<String>, out: &mut Vec<Extraction>)
    ensures
        extraction_views(final(out)@) == extraction_views(old(out)@) + records_upto(
            fields@,
            expected@,
            fields.len() as int,
        ),
{
    let n = fields.len();
    let mut any = false;
    let mut i: usize = 0;
    while i < n
        invariant
            n == fields.len(),
            i <= n,
            any == any_recognized(fields@, expected@, i as int),
        decreases n - i,
    {
        if fields[i].1.has_scalar() && name_expected(&fields[i].0, expected) {
            any = true;
        }
        i = i + 1;
    }
    let mut lead: usize = 0;
    while lead < n && !fields[lead].1.has_scalar()
        invariant
            n == fields.len(),
            lead <= n,
            first_scalar(fields@, 0) == first_scalar(fields@, lead as int),
        decreases n - lead,
    {
        lead = lead + 1;
    }
    assert(lead == first_scalar(fields@, 0));
    let mut attributes: Vec<(String, String)> = Vec::new();
    let mut i: usize = 0;
    assert(pairs_view(attributes@) =~= attributes_upto(fields@, expected@, 0));
    while i < n
        invariant
            n == fields.len(),
            i <= n,
            any == any_recognized(fields@, expected@, n as int),
            lead == first_scalar(fields@, 0),
            pairs_view(attributes@) == attributes_upto(fields@, expected@, i as int),
        decreases n - i,
    {
        if fields[i].1.has_scalar() {
            let gives = name_expected(&fields[i].0, expected) || (!any && i == lead);
            if !gives {
                let value = fields[i].1.scalar_string();
                let normal = coerce_value(value.as_str());
                let ghost before = attributes@;
                let name = fields[i].0.clone();
                attributes.push((name, normal.text));
                assert(pairs_view(attributes@) =~= pairs_view(before).push(
                    (fields@[i as int].0@, normal_text(fields@[i as int].1.scalar_text())),
                ));
            }
        }
        i = i + 1;
    }
    let ghost start = extraction_views(out@);
    let mut i: usize = 0;
    assert(start + records_upto(fields@, expected@, 0) =~= start);
    while i < n
        invariant
            n == fields.len(),
            i <= n,
            any == any_recognized(fields@, expected@, n as int),
            lead == first_scalar(fields@, 0),
            lead < n ==> fields@[lead as int].1.is_scalar(),
            pairs_view(attributes@) == attributes_upto(fields@, expected@, n as int),
            extraction_views(out@) == start + records_upto(fields@, expected@, i as int),
        decreases n - i,
    {
        let scalar = fields[i].1.has_scalar();
        let gives = (scalar && name_expected(&fields[i].0, expected)) || (!any && i == lead);
        if gives {
            assert(fields@[i as int].1.is_scalar());
            let record = Extraction {
                extraction_class: fields[i].0.clone(),
                extraction_text: fields[i].1.scalar_string(),
                char_interval: None,
                alignment_status: AlignmentStatus::Unaligned,
                attributes: clone_pairs(&attributes),
            };
            let ghost before = out@;
            out.push(record);
            assert(extraction_views(out@) =~= extraction_views(before).push(
                record_at(fields@, expected@, i as int),
            ));
        }
        i = i + 1;
    }
}

/// Adds the warnings of one row to `warnings`.
fn check_row(
    fields: &Vec<(String, JsonValue)>,
    expected: &Vec<String>,
    row: usize,
    warnings: &mut Vec<ValidationIssue>,
)
    ensures
        issue_views(final(warnings)@) == issue_views(old(warnings)@) + (missing_upto(
            fields@,
            expected@,
            row,
            expected.len() as int,
        ) + unusable_upto(fields@, row, fields.len() as int)),
{
    let ghost start = issue_views(warnings@);
    let mut i: usize = 0;
    assert(start + missing_upto(fields@, expected@, row, 0) =~= start);
    while i < expected.len()
        invariant
            i <= expected.len(),
            issue_views(warnings@) == start + missing_upto(fields@, expected@, row, i as int),
        decreases expected.len() - i,
    {
        if !field_present(fields, &expected[i]) {
            let issue = ValidationIssue {
                kind: IssueKind::MissingField,
                row: Some(row),
                field: Some(expected[i].clone()),
            };
            let ghost before = warnings@;
            warnings.push(issue);
            assert(issue_views(warnings@) =~= issue_views(before).push(issue@));
        }
        i = i + 1;
    }
    let ghost middle = issue_views(warnings@);
    let mut j: usize = 0;
    assert(middle + unusable_upto(fields@, row, 0) =~= middle);
    while j < fields.len()
        invariant
            j <= fields.len(),
            issue_views(warnings@) == middle + unusable_upto(fields@, row, j as int),
        decreases fields.len() - j,
    {
        if !fields[j].1.has_scalar() {
            let issue = ValidationIssue {
                kind: IssueKind::UnusableValue,
                row: Some(row),
                field: Some(fields[j].0.clone()),
            };
            let ghost before = warnings@;
            warnings.push(issue);
            assert(issue_views(warnings@) =~= issue_views(before).push(issue@));
        }
        j = j + 1;
    }
    assert(start + missing_upto(fields@, expected@, row, expected.len() as int) + unusable_upto(
        fields@,
        row,
        fields.len() as int,
    ) =~= start + (missing_upto(fields@, expected@, row, expected.len() as int) + unusable_upto(
        fields@,
        row,
        fields.len() as int,
    )));
}

/// Maps a parsed document to records, warnings and errors. A document that
/// is neither an array nor an object gives nothing.
pub fn map_document(document: &JsonValue, expected: &Vec<String>) -> (r: Option<
    (Vec<Extraction>, ValidationResult),
>)
    ensures
        match mapped(*document, expected@) {
            Some(m) => {
                &&& r matches Some((records, result))
                &&& extraction_views(records@) == m.records
                &&& issue_views(result.warnings@) == m.warnings
                &&& issue_views(result.errors@) == m.errors
                &&& result.raw_output_file is None
            },
            None => r is None,
        },
{
    let mut records: Vec<Extraction> = Vec::new();
    let mut warnings: Vec<ValidationIssue> = Vec::new();
    let mut errors: Vec<ValidationIssue> = Vec::new();
    match document {
        JsonValue::Array(rows) => {
            let mut i: usize = 0;
            assert(extraction_views(records@) =~= rows_records(rows@, expected@, 0));
            assert(issue_views(warnings@) =~= rows_warnings(rows@, expected@, 0));
            assert(issue_views(errors@) =~= rows_errors(rows@, 0));
            while i < rows.len()
                invariant
                    i <= rows.len(),
                    extraction_views(records@) == rows_records(rows@, expected@, i as int),
                    issue_views(warnings@) == rows_warnings(rows@, expected@, i as int),
                    issue_views(errors@) == rows_errors(rows@, i as int),
                decreases rows.len() - i,
            {
                match &rows[i] {
                    JsonValue::Object(fields) => {
                        map_row(fields, expected, &mut records);
                        check_row(fields, expected, i, &mut warnings);
                        assert(issue_views(errors@) + Seq::<IssueView>::empty() =~= issue_views(errors@));
                    },
                    _ => {
                        let issue = ValidationIssue { kind: IssueKind::NotAnObject, row: Some(i), field: None };
                        let ghost before = errors@;
                        errors.push(issue);
                        assert(issue_views(errors@) =~= issue_views(before) + seq![issue@]);
                        assert(extraction_views(records@) + Seq::<ExtractionView>::empty()
                            =~= extraction_views(records@));
                        assert(issue_views(warnings@) + Seq::<IssueView>::empty() =~= issue_views(
                            warnings@,
                        ));
                    },
                }
                i = i + 1;
            }
        },
        JsonValue::Object(fields) => {
            let issue = ValidationIssue { kind: IssueKind::LoneObjectWrapped, row: None, field: None };
            warnings.push(issue);
            assert(issue_views(warnings@) =~= seq![issue@]);
            assert(extraction_views(records@) + records_upto(fields@, expected@, fields.len() as int)
                =~= records_upto(fields@, expected@, fields.len() as int));
            map_row(fields, expected, &mut records);
            check_row(fields, expected, 0, &mut warnings);
            assert(issue_views(errors@) =~= Seq::<IssueView>::empty());
        },
        _ => {
            return None;
        },
    }
    Some((records, ValidationResult { errors, warnings, raw_output_file: None }))
}

// ---------------------------------------------------------------------------
// Parsing with repairs
// ---------------------------------------------------------------------------

/// The issue that records a repair.
pub open spec fn repair_issue(kind: IssueKind) -> IssueView {
    IssueView { kind, row: None, field: None }
}

/// The document that a response body parses to, as it is or after repairs,
/// with one issue for each repair that changed the text.
pub open spec fn repaired(body: Seq<char>) -> Option<(JsonValue, Seq<IssueView>)> {
    let without_commas = drop_trailing_commas(body);
    let closed = balance(without_commas);
    let first: Seq<IssueView> = if without_commas != body {
        seq![repair_issue(IssueKind::TrailingCommaRemoved)]
    } else {
        Seq::empty()
    };
    if json_document(body) is Ok {
        Some((json_document(body)->Ok_0, Seq::empty()))
    } else if json_document(without_commas) is Ok {
        Some((json_document(without_commas)->Ok_0, first))
    } else if json_document(closed) is Ok {
        Some((json_document(closed)->Ok_0, first.push(repair_issue(IssueKind::BracketsClosed))))
    } else {
        None
    }
}

/// The parser's message for the last text that was tried: the body without
/// trailing commas and with its brackets closed.
pub open spec fn repair_failure(body: Seq<char>) -> Seq<char> {
    match json_document(balance(drop_trailing_commas(body))) {
        Err(message) => message,
        Ok(_) => Seq::empty(),
    }
}

/// What is wrong with a document that is neither an array nor an object.
pub open spec fn not_structured() -> Seq<char> {
    "the response is not a list or an object"@
}

/// The message of the failure to resolve a response: the parser's last
/// message where the response does not parse, else what is wrong with the
/// document.
pub open spec fn resolution_failure(raw: Seq<char>) -> Seq<char> {
    match repaired(strip_fence(raw)) {
        Some(_) => not_structured(),
        None => repair_failure(strip_fence(raw)),
    }
}

/// What a response gives: the records of the document that it parses to,
/// the repairs and the row warnings, and the errors.
pub open spec fn resolution(raw: Seq<char>, expected: Seq<String>) -> Option<Mapped> {
    match repaired(strip_fence(raw)) {
        Some((document, repairs)) => match mapped(document, expected) {
            Some(m) => Some(Mapped { records: m.records, warnings: repairs + m.warnings, errors: m.errors }),
            None => None,
        },
        None => None,
    }
}

fn same_chars(a: &Vec<char>, b: &Vec<char>) -> (r: bool)
    ensures
        r == (a@ == b@),
{
    if a.len() != b.len() {
        return false;
    }
    let mut i: usize = 0;
    while i < a.len()
        invariant
            i <= a.len(),
            a.len() == b.len(),
            forall|k: int| 0 <= k < i ==> a@[k] == b@[k],
        decreases a.len() - i,
    {
        if a[i] != b[i] {
            return false;
        }
        i = i + 1;
    }
    assert(a@ =~= b@);
    true
}

/// Parses a response body, repairing it where it does not parse.
pub fn parse_with_repairs(body: &Vec<char>) -> (r: Result<(JsonValue, Vec<ValidationIssue>), ResolutionError>)
    ensures
        match repaired(body@) {
            Some((document, repairs)) => {
                &&& r matches Ok((found, issues))
                &&& found == document
                &&& issue_views(issues@) == repairs
            },
            None => r matches Err(error) && error.message@ == repair_failure(body@),
        },
{
    let mut issues: Vec<ValidationIssue> = Vec::new();
    assert(issue_views(issues@) =~= Seq::<IssueView>::empty());
    let text = from_chars(body);
    let mut last = match parse_document(text.as_str()) {
        Ok(document) => {
            return Ok((document, issues));
        },
        Err(message) => message,
    };
    let without_commas = drop_trailing_commas_chars(body);
    if !same_chars(&without_commas, body) {
        let issue = ValidationIssue { kind: IssueKind::TrailingCommaRemoved, row: None, field: None };
        issues.push(issue);
        assert(issue_views(issues@) =~= seq![repair_issue(IssueKind::TrailingCommaRemoved)]);
        let text = from_chars(&without_commas);
        match parse_document(text.as_str()) {
            Ok(document) => {
                return Ok((document, issues));
            },
            Err(message) => {
                last = message;
            },
        }
    }
    let closed = balance_chars(&without_commas);
    if !same_chars(&closed, &without_commas) {
        let issue = ValidationIssue { kind: IssueKind::BracketsClosed, row: None, field: None };
        let ghost before = issues@;
        issues.push(issue);
        assert(issue_views(issues@) =~= issue_views(before).push(repair_issue(IssueKind::BracketsClosed)));
        let text = from_chars(&closed);
        match parse_document(text.as_str()) {
            Ok(document) => {
                return Ok((document, issues));
            },
            Err(message) => {
                last = message;
            },
        }
    }
    Err(ResolutionError { message: last })
}

/// The views of two lists, one after the other, are the views of the joined
/// list.
pub proof fn lemma_issue_views_join(a: Seq<ValidationIssue>, b: Seq<ValidationIssue>)
    ensures
        issue_views(a + b) == issue_views(a) + issue_views(b),
{
    assert(issue_views(a + b) =~= issue_views(a) + issue_views(b));
}

/// Resolves model responses.
#[derive(Clone, Copy, Debug)]
pub struct Resolver {
    pub validation_config: ValidationConfig,
}

impl Resolver {
    /// A resolver with the default settings.
    pub fn new() -> (r: Self)
        ensures
            !r.validation_config.save_raw_outputs,
    {
        Resolver { validation_config: ValidationConfig::default() }
    }

    pub fn with_validation_config(validation_config: ValidationConfig) -> (r: Self)
        ensures
            r.validation_config == validation_config,
    {
        Resolver { validation_config }
    }

    /// Whether the caller is asked to keep a copy of each raw response.
    pub fn keeps_raw_outputs(&self) -> (r: bool)
        ensures
            r == self.validation_config.save_raw_outputs,
    {
        self.validation_config.save_raw_outputs
    }

    /// Resolves a response into records.
    ///
    /// The call fails when the response does not parse even after repairs,
    /// with the parser's last message, and when the document is neither an
    /// array nor an object.
    pub fn validate_and_parse(&self, raw_response: &str, expected_fields: &Vec<String>) -> (r: Result<
        (Vec<Extraction>, ValidationResult),
        ResolutionError,
    >)
        ensures
            match resolution(raw_response@, expected_fields@) {
                Some(m) => {
                    &&& r matches Ok((records, result))
                    &&& extraction_views(records@) == m.records
                    &&& issue_views(result.warnings@) == m.warnings
                    &&& issue_views(result.errors@) == m.errors
                    &&& result.raw_output_file is None
                },
                None => r matches Err(error) && error.message@ == resolution_failure(raw_response@),
            },
    {
        let raw = to_chars(raw_response);
        let body = strip_fence_chars(&raw);
        let (document, repairs) = match parse_with_repairs(&body) {
            Ok(found) => found,
            Err(error) => {
                return Err(error);
            },
        };
        match map_document(&document, expected_fields) {
            Some((records, result)) => {
                let mut warnings = repairs;
                let mut rest = result.warnings;
                proof {
                    lemma_issue_views_join(warnings@, rest@);
                }
                warnings.append(&mut rest);
                Ok((records, ValidationResult { errors: result.errors, warnings, raw_output_file: None }))
            },
            None => Err(
                ResolutionError { message: String::from_str("the response is not a list or an object") },
            ),
        }
    }
}

// ---------------------------------------------------------------------------
// How many records a document gives
// ---------------------------------------------------------------------------

/// How many of the first `n` fields are recognized.
pub open spec fn recognized_count(fields: Seq<(String, JsonValue)>, expected: Seq<String>, n: int) -> nat
    decreases n,
{
    if n <= 0 {
        0
    } else {
        recognized_count(fields, expected, n - 1) + if recognized(fields, expected, n - 1) {
            1nat
        } else {
            0nat
        }
    }
}

proof fn lemma_first_scalar(fields: Seq<(String, JsonValue)>, from: int)
    requires
        0 <= from <= fields.len(),
    ensures
        from <= first_scalar(fields, from) <= fields.len(),
    decreases fields.len() - from,
{
    if from < fields.len() && !fields[from].1.is_scalar() {
        lemma_first_scalar(fields, from + 1);
    }
}

proof fn lemma_none_recognized(fields: Seq<(String, JsonValue)>, expected: Seq<String>, n: int, i: int)
    requires
        0 <= i < n <= fields.len(),
        !any_recognized(fields, expected, n),
    ensures
        !recognized(fields, expected, i),
    decreases n,
{
    if i < n - 1 {
        lemma_none_recognized(fields, expected, n - 1, i);
    }
}

proof fn lemma_count_when_recognized(fields: Seq<(String, JsonValue)>, expected: Seq<String>, n: int)
    requires
        0 <= n <= fields.len(),
        any_recognized(fields, expected, fields.len() as int),
    ensures
        records_upto(fields, expected, n).len() == recognized_count(fields, expected, n),
    decreases n,
{
    if n > 0 {
        lemma_count_when_recognized(fields, expected, n - 1);
    }
}

proof fn lemma_count_when_none(fields: Seq<(String, JsonValue)>, expected: Seq<String>, n: int)
    requires
        0 <= n <= fields.len(),
        !any_recognized(fields, expected, fields.len() as int),
    ensures
        records_upto(fields, expected, n).len() == if first_scalar(fields, 0) < n {
            1nat
        } else {
            0nat
        },
    decreases n,
{
    lemma_first_scalar(fields, 0);
    if n > 0 {
        lemma_count_when_none(fields, expected, n - 1);
        lemma_none_recognized(fields, expected, fields.len() as int, n - 1);
    }
}

/// A row gives one record for each recognized field. A row without a
/// recognized field gives one record if it has a field with a usable value,
/// and none otherwise.
pub proof fn lemma_row_record_count(fields: Seq<(String, JsonValue)>, expected: Seq<String>)
    ensures
        records_upto(fields, expected, fields.len() as int).len() == if any_recognized(
            fields,
            expected,
            fields.len() as int,
        ) {
            recognized_count(fields, expected, fields.len() as int)
        } else if first_scalar(fields, 0) < fields.len() {
            1nat
        } else {
            0nat
        },
        forall|k: int|
            0 <= k < records_upto(fields, expected, fields.len() as int).len() ==> exists|i: int|
                0 <= i < fields.len() && #[trigger] records_upto(
                    fields,
                    expected,
                    fields.len() as int,
                )[k] == #[trigger] record_at(fields, expected, i),
{
    let n = fields.len() as int;
    if any_recognized(fields, expected, n) {
        lemma_count_when_recognized(fields, expected, n);
    } else {
        lemma_count_when_none(fields, expected, n);
    }
    lemma_records_come_from_fields(fields, expected, n);
}

proof fn lemma_records_come_from_fields(fields: Seq<(String, JsonValue)>, expected: Seq<String>, n: int)
    requires
        0 <= n <= fields.len(),
    ensures
        forall|k: int|
            0 <= k < records_upto(fields, expected, n).len() ==> exists|i: int|
                0 <= i < n && #[trigger] records_upto(fields, expected, n)[k] == #[trigger] record_at(
                    fields,
                    expected,
                    i,
                ),
    decreases n,
{
    if n > 0 {
        lemma_records_come_from_fields(fields, expected, n - 1);
        let prior = records_upto(fields, expected, n - 1);
        let all = records_upto(fields, expected, n);
        assert forall|k: int| 0 <= k < all.len() implies exists|i: int|
            0 <= i < n && #[trigger] all[k] == #[trigger] record_at(fields, expected, i) by {
            if k < prior.len() {
                assert(all[k] == prior[k]);
                let i = choose|i: int| 0 <= i < n - 1 && prior[k] == #[trigger] record_at(fields, expected, i);
                assert(0 <= i < n && all[k] == record_at(fields, expected, i));
            } else {
                assert(all[k] == record_at(fields, expected, n - 1));
            }
        }
    }
}

/// An array whose first `n` elements each give `each` records gives
/// `n * each` records: one per element when each element gives one.
pub proof fn lemma_records_per_row(rows: Seq<JsonValue>, expected: Seq<String>, n: int, each: nat)
    requires
        0 <= n <= rows.len(),
        forall|i: int| 0 <= i < n ==> (#[trigger] row_records(rows[i], expected)).len() == each,
    ensures
        rows_records(rows, expected, n).len() == n * each,
    decreases n,
{
    if n > 0 {
        lemma_records_per_row(rows, expected, n - 1, each);
        assert(row_records(rows[n - 1], expected).len() == each);
        assert((n - 1) * each + each == n * each) by (nonlinear_arith);
    } else {
        assert(n * each == 0) by (nonlinear_arith)
            requires
                n == 0,
        ;
    }
}

} // verus!
