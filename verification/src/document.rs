//! Whole documents: line classification, the strict and the lenient parser,
//! and queries over the variables of a parsed document.

use crate::error::{message_of, AdsTxtError, ErrorKind};
use crate::record::{lemma_record_of_is_trimmed, record_of, DataRecord, RecordView};
use crate::text::{
    chars_of, eq_chars, eq_ignore_ascii_case, lines, lines_of, same_ignoring_ascii_case,
    trim_start, trim_start_of, views_of,
};
use crate::variable::{lemma_variable_of_is_trimmed, variable_of, Variable, VariableView};
use vstd::prelude::*;

verus! {

/// A parsed document: its data records and its variables, each in the order
/// in which the text states them.
#[derive(Debug, PartialEq, Eq)]
pub struct AdsTxt {
    pub records: Vec<DataRecord>,
    pub variables: Vec<Variable>,
}

/// What a document holds, as mathematical values.
pub struct AdsTxtView {
    pub records: Seq<RecordView>,
    pub variables: Seq<VariableView>,
}

impl AdsTxtView {
    /// Whether no field of any record or variable begins or ends with
    /// whitespace.
    pub open spec fn is_trimmed(self) -> bool {
        &&& forall|i: int| 0 <= i < self.records.len() ==> (#[trigger] self.records[i]).is_trimmed()
        &&& forall|i: int|
            0 <= i < self.variables.len() ==> (#[trigger] self.variables[i]).is_trimmed()
    }
}

/// The views of a sequence of records.
pub open spec fn record_views(records: Seq<DataRecord>) -> Seq<RecordView> {
    Seq::new(records.len(), |i: int| records[i]@)
}

/// The views of a sequence of variables.
pub open spec fn variable_views(variables: Seq<Variable>) -> Seq<VariableView> {
    Seq::new(variables.len(), |i: int| variables[i]@)
}

/// The messages of a sequence of errors.
pub open spec fn error_views(errors: Seq<AdsTxtError>) -> Seq<Seq<char>> {
    Seq::new(errors.len(), |i: int| errors[i]@)
}

/// The views of a sequence of strings.
pub open spec fn string_views(strings: Seq<String>) -> Seq<Seq<char>> {
    Seq::new(strings.len(), |i: int| strings[i]@)
}

impl View for AdsTxt {
    type V = AdsTxtView;

    open spec fn view(&self) -> AdsTxtView {
        AdsTxtView {
            records: record_views(self.records@),
            variables: variable_views(self.variables@),
        }
    }
}

/// What one line of a document is.
#[derive(Debug, Clone, PartialEq, Eq)]
pub enum Line {
    /// A blank line or a comment.
    Skipped,
    /// A data record.
    Record(DataRecord),
    /// A variable.
    Variable(Variable),
    /// Neither of these; the error quotes the line.
    Invalid(AdsTxtError),
}

/// What one line of a document is, as mathematical values.
pub enum LineView {
    Skipped,
    Record(RecordView),
    Variable(VariableView),
    Invalid(Seq<char>),
}

impl View for Line {
    type V = LineView;

    open spec fn view(&self) -> LineView {
        match self {
            Line::Skipped => LineView::Skipped,
            Line::Record(record) => LineView::Record(record@),
            Line::Variable(variable) => LineView::Variable(variable@),
            Line::Invalid(error) => LineView::Invalid(error@),
        }
    }
}

/// Whether a line without its leading whitespace is blank or a comment.
pub open spec fn is_skipped(content: Seq<char>) -> bool {
    content.len() == 0 || content[0] == '#'
}

/// What `line` is.
///
/// Leading whitespace does not count. A blank line or one that begins with
/// `#` is skipped. Otherwise the line is a data record if it reads as one; if
/// not, a variable if it reads as one; if not, it is invalid, and the message
/// quotes it without its leading whitespace.
pub open spec fn classify(line: Seq<char>) -> LineView {
    let content = trim_start_of(line);
    if is_skipped(content) {
        LineView::Skipped
    } else {
        match record_of(content) {
            Ok(record) => LineView::Record(record),
            Err(_) => match variable_of(content) {
                Ok(variable) => LineView::Variable(variable),
                Err(_) => LineView::Invalid(message_of(ErrorKind::InvalidLine, content)),
            },
        }
    }
}

/// The data records among `lines`, in order.
pub open spec fn records_in(lines: Seq<Seq<char>>) -> Seq<RecordView>
    decreases lines.len(),
{
    if lines.len() == 0 {
        Seq::empty()
    } else {
        let before = records_in(lines.drop_last());
        match classify(lines.last()) {
            LineView::Record(record) => before.push(record),
            _ => before,
        }
    }
}

/// The variables among `lines`, in order.
pub open spec fn variables_in(lines: Seq<Seq<char>>) -> Seq<VariableView>
    decreases lines.len(),
{
    if lines.len() == 0 {
        Seq::empty()
    } else {
        let before = variables_in(lines.drop_last());
        match classify(lines.last()) {
            LineView::Variable(variable) => before.push(variable),
            _ => before,
        }
    }
}

/// The messages for the invalid lines among `lines`, in order.
pub open spec fn errors_in(lines: Seq<Seq<char>>) -> Seq<Seq<char>>
    decreases lines.len(),
{
    if lines.len() == 0 {
        Seq::empty()
    } else {
        let before = errors_in(lines.drop_last());
        match classify(lines.last()) {
            LineView::Invalid(message) => before.push(message),
            _ => before,
        }
    }
}

/// The document that `text` states when its invalid lines are left out.
pub open spec fn document_of(text: Seq<char>) -> AdsTxtView {
    AdsTxtView {
        records: records_in(lines_of(text)),
        variables: variables_in(lines_of(text)),
    }
}

/// The messages for the invalid lines of `text`, in order.
pub open spec fn errors_of(text: Seq<char>) -> Seq<Seq<char>> {
    errors_in(lines_of(text))
}

/// The outcome of reading `text` leniently: every line that can be read, and
/// a message for each that cannot.
pub open spec fn lenient_outcome(text: Seq<char>) -> (AdsTxtView, Seq<Seq<char>>) {
    (document_of(text), errors_of(text))
}

/// The outcome of reading `lines` strictly, one after the other: a failure
/// stays a failure, an invalid line turns a document into a failure with
/// that line's message, and any other line adds what it states.
pub open spec fn strict_in(lines: Seq<Seq<char>>) -> Result<AdsTxtView, Seq<char>>
    decreases lines.len(),
{
    if lines.len() == 0 {
        Ok(AdsTxtView { records: Seq::empty(), variables: Seq::empty() })
    } else {
        match strict_in(lines.drop_last()) {
            Err(message) => Err(message),
            Ok(doc) => match classify(lines.last()) {
                LineView::Skipped => Ok(doc),
                LineView::Record(record) => Ok(
                    AdsTxtView { records: doc.records.push(record), variables: doc.variables },
                ),
                LineView::Variable(variable) => Ok(
                    AdsTxtView { records: doc.records, variables: doc.variables.push(variable) },
                ),
                LineView::Invalid(message) => Err(message),
            },
        }
    }
}

/// The outcome of reading `text` strictly: the whole document if every line
/// can be read, and otherwise the message for the first line that cannot.
pub open spec fn strict_outcome(text: Seq<char>) -> Result<AdsTxtView, Seq<char>> {
    strict_in(lines_of(text))
}

/// Whether a variable called `name` answers a query for `wanted`: by the very
/// same name if `exact`, and else by the same name up to the case of ASCII
/// letters.
pub open spec fn name_matches(name: Seq<char>, wanted: Seq<char>, exact: bool) -> bool {
    if exact {
        name == wanted
    } else {
        same_ignoring_ascii_case(name, wanted)
    }
}

/// The values of the variables whose name answers a query for `wanted`, in
/// order.
pub open spec fn values_matching(
    variables: Seq<VariableView>,
    wanted: Seq<char>,
    exact: bool,
) -> Seq<Seq<char>>
    decreases variables.len(),
{
    if variables.len() == 0 {
        Seq::empty()
    } else {
        let before = values_matching(variables.drop_last(), wanted, exact);
        if name_matches(variables.last().name, wanted, exact) {
            before.push(variables.last().value)
        } else {
            before
        }
    }
}

/// Whitespace around a field never reaches a document: every record and
/// every variable read from lines is trimmed.
pub proof fn lemma_lines_are_read_trimmed(lines: Seq<Seq<char>>)
    ensures
        forall|i: int|
            0 <= i < records_in(lines).len() ==> (#[trigger] records_in(lines)[i]).is_trimmed(),
        forall|i: int|
            0 <= i < variables_in(lines).len() ==> (#[trigger] variables_in(
                lines,
            )[i]).is_trimmed(),
    decreases lines.len(),
{
    if lines.len() > 0 {
        lemma_lines_are_read_trimmed(lines.drop_last());
        let content = trim_start_of(lines.last());
        if record_of(content) is Ok {
            lemma_record_of_is_trimmed(content);
        }
        if variable_of(content) is Ok {
            lemma_variable_of_is_trimmed(content);
        }
        let records = records_in(lines);
        let earlier_records = records_in(lines.drop_last());
        assert forall|i: int| 0 <= i < records.len() implies (#[trigger] records[i]).is_trimmed() by {
            if i < earlier_records.len() {
                assert(records[i] == earlier_records[i]);
            }
        }
        let variables = variables_in(lines);
        let earlier_variables = variables_in(lines.drop_last());
        assert forall|i: int| 0 <= i < variables.len() implies (#[trigger] variables[i]).is_trimmed() by {
            if i < earlier_variables.len() {
                assert(variables[i] == earlier_variables[i]);
            }
        }
    }
}

/// The lenient reading reports no error exactly when no line is invalid.
pub proof fn lemma_no_error_without_invalid_line(lines: Seq<Seq<char>>)
    ensures
        errors_in(lines).len() == 0 <==> forall|i: int|
            0 <= i < lines.len() ==> !(#[trigger] classify(lines[i]) is Invalid),
    decreases lines.len(),
{
    if lines.len() > 0 {
        let shorter = lines.drop_last();
        lemma_no_error_without_invalid_line(shorter);
        assert(lines.last() == lines[lines.len() - 1]);
        if errors_in(lines).len() == 0 {
            assert forall|i: int| 0 <= i < lines.len() implies !(#[trigger] classify(
                lines[i],
            ) is Invalid) by {
                if i < shorter.len() {
                    assert(shorter[i] == lines[i]);
                }
            }
        }
        if forall|i: int| 0 <= i < lines.len() ==> !(#[trigger] classify(lines[i]) is Invalid) {
            assert forall|i: int| 0 <= i < shorter.len() implies !(#[trigger] classify(
                shorter[i],
            ) is Invalid) by {
                assert(shorter[i] == lines[i]);
            }
        }
    }
}

/// Strict reading is fail-fast: once the first `k` lines have failed, the
/// lines after them change nothing.
pub proof fn lemma_strict_failure_is_final(lines: Seq<Seq<char>>, k: int)
    requires
        0 <= k <= lines.len(),
        strict_in(lines.take(k)) is Err,
    ensures
        strict_in(lines) == strict_in(lines.take(k)),
    decreases lines.len(),
{
    if k == lines.len() {
        assert(lines.take(k) =~= lines);
    } else {
        assert(lines.drop_last().take(k) =~= lines.take(k));
        lemma_strict_failure_is_final(lines.drop_last(), k);
    }
}

/// Strict and lenient reading agree. Where the lenient reading reports no
/// invalid line, the strict reading gives the same records and variables;
/// where it reports some, the strict reading fails with the first of its
/// messages.
pub proof fn lemma_strict_agrees_with_lenient_in(lines: Seq<Seq<char>>)
    ensures
        errors_in(lines).len() == 0 ==> strict_in(lines) == Ok::<AdsTxtView, Seq<char>>(
            AdsTxtView { records: records_in(lines), variables: variables_in(lines) },
        ),
        errors_in(lines).len() > 0 ==> strict_in(lines) == Err::<AdsTxtView, Seq<char>>(
            errors_in(lines).first(),
        ),
    decreases lines.len(),
{
    if lines.len() > 0 {
        lemma_strict_agrees_with_lenient_in(lines.drop_last());
    }
}

/// Strict and lenient reading of one text agree: the strict reading succeeds,
/// with the document of the lenient reading, exactly when the lenient reading
/// reports no error, and it fails with the first lenient error otherwise.
pub proof fn lemma_strict_agrees_with_lenient(text: Seq<char>)
    ensures
        strict_outcome(text) is Ok <==> lenient_outcome(text).1.len() == 0,
        strict_outcome(text) is Ok ==> strict_outcome(text)->Ok_0 == lenient_outcome(text).0,
        strict_outcome(text) is Err ==> strict_outcome(text)->Err_0 == lenient_outcome(
            text,
        ).1.first(),
{
    lemma_strict_agrees_with_lenient_in(lines_of(text));
}

/// A blank line or a comment states nothing: with such a line taken out, the
/// records, the variables and the messages are what they were, and so is the
/// strict outcome.
pub proof fn lemma_skipped_line_changes_nothing(lines: Seq<Seq<char>>, i: int)
    requires
        0 <= i < lines.len(),
        is_skipped(trim_start_of(lines[i])),
    ensures
        records_in(lines.remove(i)) == records_in(lines),
        variables_in(lines.remove(i)) == variables_in(lines),
        errors_in(lines.remove(i)) == errors_in(lines),
        strict_in(lines.remove(i)) == strict_in(lines),
    decreases lines.len(),
{
    if i == lines.len() - 1 {
        assert(lines.remove(i) =~= lines.drop_last());
    } else {
        assert(lines.remove(i).drop_last() =~= lines.drop_last().remove(i));
        assert(lines.remove(i).last() == lines.last());
        lemma_skipped_line_changes_nothing(lines.drop_last(), i);
    }
}

/// A query by exact name and a query up to case give the same values when
/// every variable that answers the second is spelled exactly as asked.
pub proof fn lemma_exact_and_folded_queries_agree(variables: Seq<VariableView>, wanted: Seq<char>)
    requires
        forall|i: int|
            0 <= i < variables.len() && same_ignoring_ascii_case(
                (#[trigger] variables[i]).name,
                wanted,
            ) ==> variables[i].name == wanted,
    ensures
        values_matching(variables, wanted, true) == values_matching(variables, wanted, false),
    decreases variables.len(),
{
    if variables.len() > 0 {
        let shorter = variables.drop_last();
        assert forall|i: int|
            0 <= i < shorter.len() && same_ignoring_ascii_case(
                (#[trigger] shorter[i]).name,
                wanted,
            ) implies shorter[i].name == wanted by {
            assert(shorter[i] == variables[i]);
        }
        lemma_exact_and_folded_queries_agree(shorter, wanted);
        assert(variables.last() == variables[variables.len() - 1]);
    }
}

/// A query by exact name finds nothing when no variable has that very name,
/// however close another name comes to it.
pub proof fn lemma_exact_query_needs_exact_name(variables: Seq<VariableView>, wanted: Seq<char>)
    requires
        forall|i: int| 0 <= i < variables.len() ==> (#[trigger] variables[i]).name != wanted,
    ensures
        values_matching(variables, wanted, true).len() == 0,
    decreases variables.len(),
{
    if variables.len() > 0 {
        let shorter = variables.drop_last();
        assert forall|i: int| 0 <= i < shorter.len() implies (#[trigger] shorter[i]).name
            != wanted by {
            assert(shorter[i] == variables[i]);
        }
        lemma_exact_query_needs_exact_name(shorter, wanted);
        assert(variables.last() == variables[variables.len() - 1]);
    }
}

/// A record with the same contents as `record`.
fn copy_of_record(record: &DataRecord) -> (copy: DataRecord)
    ensures
        copy@ == record@,
{
    DataRecord {
        domain: record.domain.clone(),
        publisher_id: record.publisher_id.clone(),
        acc_relation: record.acc_relation,
        cert_authority: match &record.cert_authority {
            Some(id) => Some(id.clone()),
            None => None,
        },
    }
}

/// Reads one line.
pub fn classify_line(line: &[char]) -> (r: Line)
    ensures
        r@ == classify(line@),
{
    let content = trim_start(line);
    if content.len() == 0 || AdsTxt::is_comment(content) {
        return Line::Skipped;
    }
    match DataRecord::parse_chars(content) {
        Ok(record) => Line::Record(record),
        Err(_) => match Variable::parse_chars(content) {
            Ok(variable) => Line::Variable(variable),
            Err(_) => Line::Invalid(AdsTxtError::of_kind(ErrorKind::InvalidLine, content)),
        },
    }
}

impl AdsTxt {
    /// Whether `line` begins with `#`.
    pub fn is_comment(line: &[char]) -> (b: bool)
        ensures
            b == (line@.len() > 0 && line@[0] == '#'),
    {
        line.len() > 0 && line[0] == '#'
    }

    /// A document with copies of the given records and variables.
    pub fn new(records: &[DataRecord], variables: &[Variable]) -> (doc: Self)
        ensures
            doc@ == (AdsTxtView {
                records: record_views(records@),
                variables: variable_views(variables@),
            }),
    {
        let mut own_records: Vec<DataRecord> = Vec::new();
        let mut i: usize = 0;
        while i < records.len()
            invariant
                i <= records@.len(),
                own_records@.len() == i,
                forall|j: int| 0 <= j < i ==> (#[trigger] own_records@[j])@ == records@[j]@,
            decreases records@.len() - i,
        {
            own_records.push(copy_of_record(&records[i]));
            i += 1;
        }
        let mut own_variables: Vec<Variable> = Vec::new();
        let mut i: usize = 0;
        while i < variables.len()
            invariant
                i <= variables@.len(),
                own_variables@.len() == i,
                forall|j: int| 0 <= j < i ==> (#[trigger] own_variables@[j])@ == variables@[j]@,
            decreases variables@.len() - i,
        {
            let variable = &variables[i];
            own_variables.push(Variable { name: variable.name.clone(), value: variable.value.clone() });
            i += 1;
        }
        assert(record_views(own_records@) =~= record_views(records@));
        assert(variable_views(own_variables@) =~= variable_views(variables@));
        AdsTxt { records: own_records, variables: own_variables }
    }

    /// The document without records and without variables.
    pub fn empty() -> (doc: Self)
        ensures
            doc@.records.len() == 0,
            doc@.variables.len() == 0,
    {
        AdsTxt { records: Vec::new(), variables: Vec::new() }
    }

    /// Reads `text` strictly: the first line that is neither skipped, nor a
    /// data record, nor a variable fails the whole text.
    pub fn parse(text: &str) -> (r: Result<AdsTxt, Box<AdsTxtError>>)
        ensures
            match r {
                Ok(doc) => strict_outcome(text@) == Ok::<AdsTxtView, Seq<char>>(doc@),
                Err(e) => strict_outcome(text@) == Err::<AdsTxtView, Seq<char>>(e@),
            },
            r is Ok ==> r->Ok_0@.is_trimmed(),
    {
        let chars = chars_of(text);
        let all = lines(chars.as_slice());
        let ghost shown = lines_of(text@);
        let n: usize = all.len();
        let mut records: Vec<DataRecord> = Vec::new();
        let mut variables: Vec<Variable> = Vec::new();
        let mut k: usize = 0;
        assert(record_views(records@) =~= Seq::<RecordView>::empty());
        assert(variable_views(variables@) =~= Seq::<VariableView>::empty());
        assert(shown.take(0).len() == 0);
        while k < n
            invariant
                n == all@.len(),
                k <= n,
                views_of(all@) == shown,
                shown == lines_of(text@),
                strict_in(shown.take(k as int)) == Ok::<AdsTxtView, Seq<char>>(
                    AdsTxtView {
                        records: record_views(records@),
                        variables: variable_views(variables@),
                    },
                ),
            decreases n - k,
        {
            assert(shown.take(k + 1).drop_last() =~= shown.take(k as int));
            assert(shown.take(k + 1).last() == all@[k as int]@);
            let ghost old_records = record_views(records@);
            let ghost old_variables = variable_views(variables@);
            match classify_line(all[k]) {
                Line::Skipped => {},
                Line::Record(record) => {
                    records.push(record);
                    assert(record_views(records@) =~= old_records.push(record@));
                },
                Line::Variable(variable) => {
                    variables.push(variable);
                    assert(variable_views(variables@) =~= old_variables.push(variable@));
                },
                Line::Invalid(error) => {
                    proof {
                        lemma_strict_failure_is_final(shown, k + 1);
                    }
                    return Err(Box::new(error));
                },
            }
            k += 1;
        }
        proof {
            assert(shown.take(n as int) =~= shown);
            lemma_strict_agrees_with_lenient_in(shown);
            lemma_lines_are_read_trimmed(shown);
        }
        Ok(AdsTxt { records, variables })
    }

    /// Reads `text` leniently: a line that is neither skipped, nor a data
    /// record, nor a variable is reported, and reading goes on.
    pub fn parse_lenient(text: &str) -> (r: (AdsTxt, Vec<AdsTxtError>))
        ensures
            (r.0@, error_views(r.1@)) == lenient_outcome(text@),
            r.0@.is_trimmed(),
    {
        let chars = chars_of(text);
        let all = lines(chars.as_slice());
        let ghost shown = lines_of(text@);
        let n: usize = all.len();
        let mut records: Vec<DataRecord> = Vec::new();
        let mut variables: Vec<Variable> = Vec::new();
        let mut errors: Vec<AdsTxtError> = Vec::new();
        let mut k: usize = 0;
        assert(record_views(records@) =~= records_in(shown.take(0)));
        assert(variable_views(variables@) =~= variables_in(shown.take(0)));
        assert(error_views(errors@) =~= errors_in(shown.take(0)));
        while k < n
            invariant
                n == all@.len(),
                k <= n,
                views_of(all@) == shown,
                record_views(records@) == records_in(shown.take(k as int)),
                variable_views(variables@) == variables_in(shown.take(k as int)),
                error_views(errors@) == errors_in(shown.take(k as int)),
            decreases n - k,
        {
            assert(shown.take(k + 1).drop_last() =~= shown.take(k as int));
            assert(shown.take(k + 1).last() == all@[k as int]@);
            let ghost old_records = record_views(records@);
            let ghost old_variables = variable_views(variables@);
            let ghost old_errors = error_views(errors@);
            match classify_line(all[k]) {
                Line::Skipped => {},
                Line::Record(record) => {
                    records.push(record);
                    assert(record_views(records@) =~= old_records.push(record@));
                },
                Line::Variable(variable) => {
                    variables.push(variable);
                    assert(variable_views(variables@) =~= old_variables.push(variable@));
                },
                Line::Invalid(error) => {
                    errors.push(error);
                    assert(error_views(errors@) =~= old_errors.push(error@));
                },
            }
            k += 1;
        }
        proof {
            assert(shown.take(n as int) =~= shown);
            lemma_lines_are_read_trimmed(shown);
        }
        (AdsTxt { records, variables }, errors)
    }

    /// The values of the variables that answer a query for `wanted`, in the
    /// order of the document.
    fn collect(&self, wanted: &[char], exact: bool) -> (values: Vec<String>)
        ensures
            string_views(values@) == values_matching(self@.variables, wanted@, exact),
    {
        let ghost all = self@.variables;
        let n: usize = self.variables.len();
        let mut values: Vec<String> = Vec::new();
        let mut i: usize = 0;
        assert(string_views(values@) =~= values_matching(all.take(0), wanted@, exact));
        while i < n
            invariant
                n == self.variables@.len(),
                i <= n,
                all == self@.variables,
                string_views(values@) == values_matching(all.take(i as int), wanted@, exact),
            decreases n - i,
        {
            let variable = &self.variables[i];
            assert(all.take(i + 1).drop_last() =~= all.take(i as int));
            assert(all.take(i + 1).last() == variable@);
            let name = chars_of(variable.name.as_str());
            let found = if exact {
                eq_chars(name.as_slice(), wanted)
            } else {
                eq_ignore_ascii_case(name.as_slice(), wanted)
            };
            if found {
                let ghost shown = string_views(values@);
                values.push(variable.value.clone());
                assert(string_views(values@) =~= shown.push(variable@.value));
            }
            i += 1;
        }
        assert(all.take(n as int) =~= all);
        values
    }

    /// The values of the variables called exactly `name`, in the order of the
    /// document; upper and lower case differ.
    pub fn values(&self, name: &str) -> (values: Vec<String>)
        ensures
            string_views(values@) == values_matching(self@.variables, name@, true),
    {
        let wanted = chars_of(name);
        self.collect(wanted.as_slice(), true)
    }

    /// The values of the variables called `subdomain`, in any mix of upper
    /// and lower case, in the order of the document.
    pub fn sub_domains(&self) -> (values: Vec<String>)
        ensures
            string_views(values@) == values_matching(self@.variables, "subdomain"@, false),
    {
        let wanted = chars_of("subdomain");
        self.collect(wanted.as_slice(), false)
    }

    /// The values of the variables called `contact`, in any mix of upper and
    /// lower case, in the order of the document.
    pub fn contacts(&self) -> (values: Vec<String>)
        ensures
            string_views(values@) == values_matching(self@.variables, "contact"@, false),
    {
        let wanted = chars_of("contact");
        self.collect(wanted.as_slice(), false)
    }
}

} // verus!
