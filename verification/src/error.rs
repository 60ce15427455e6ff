//! The error value that every parser of this crate reports.

use crate::text::{chars_of, push_chars, string_of, strip_prefix};
use vstd::prelude::*;
use vstd::string::StringExecFns;

verus! {

/// What went wrong with a line or a token.
#[derive(Debug, Clone, Copy, PartialEq, Eq, Structural)]
pub enum ErrorKind {
    /// A token is neither `direct` nor `reseller`.
    InvalidAccountRelation,
    /// A line does not have three or four comma-separated fields.
    InvalidDataRecord,
    /// A line does not have the shape `name=value`.
    InvalidVariable,
    /// A line is neither a data record nor a variable.
    InvalidLine,
}

/// The words with which a message of the given kind begins.
pub open spec fn kind_prefix(kind: ErrorKind) -> Seq<char> {
    match kind {
        ErrorKind::InvalidAccountRelation => "Invalid account relation: "@,
        ErrorKind::InvalidDataRecord => "Invalid data record: "@,
        ErrorKind::InvalidVariable => "Invalid variable record: "@,
        ErrorKind::InvalidLine => "Invalid ads.txt line: "@,
    }
}

/// The message for an offending `text` of the given kind: the kind's opening
/// words, then the text exactly as it was found.
pub open spec fn message_of(kind: ErrorKind, text: Seq<char>) -> Seq<char> {
    kind_prefix(kind) + text
}

/// The kind of which `message` is a message, if it is one of any: the kind
/// with whose opening words it begins.
pub open spec fn kind_of(message: Seq<char>) -> Option<ErrorKind> {
    if kind_prefix(ErrorKind::InvalidAccountRelation).is_prefix_of(message) {
        Some(ErrorKind::InvalidAccountRelation)
    } else if kind_prefix(ErrorKind::InvalidDataRecord).is_prefix_of(message) {
        Some(ErrorKind::InvalidDataRecord)
    } else if kind_prefix(ErrorKind::InvalidVariable).is_prefix_of(message) {
        Some(ErrorKind::InvalidVariable)
    } else if kind_prefix(ErrorKind::InvalidLine).is_prefix_of(message) {
        Some(ErrorKind::InvalidLine)
    } else {
        None
    }
}

/// The offending text that `message` quotes, if it is a message of any kind:
/// what follows the kind's opening words.
pub open spec fn offending_text_of(message: Seq<char>) -> Option<Seq<char>> {
    match kind_of(message) {
        Some(kind) => Some(message.skip(kind_prefix(kind).len() as int)),
        None => None,
    }
}

/// A message gives back the kind and the text that it was made of.
pub proof fn lemma_message_tells_kind_and_text(kind: ErrorKind, text: Seq<char>)
    ensures
        kind_of(message_of(kind, text)) == Some(kind),
        offending_text_of(message_of(kind, text)) == Some(text),
{
    reveal_strlit("Invalid account relation: ");
    reveal_strlit("Invalid data record: ");
    reveal_strlit("Invalid variable record: ");
    reveal_strlit("Invalid ads.txt line: ");
    let relation = kind_prefix(ErrorKind::InvalidAccountRelation);
    let record = kind_prefix(ErrorKind::InvalidDataRecord);
    let variable = kind_prefix(ErrorKind::InvalidVariable);
    let line = kind_prefix(ErrorKind::InvalidLine);
    let own = kind_prefix(kind);
    let message = message_of(kind, text);
    assert(own =~= message.subrange(0, own.len() as int));
    assert(message.skip(own.len() as int) =~= text);
    assert(relation[8] == 'a' && relation[9] == 'c');
    assert(record[8] == 'd');
    assert(variable[8] == 'v');
    assert(line[8] == 'a' && line[9] == 'd');
    assert(message[8] == own[8] && message[9] == own[9]);
    if relation.is_prefix_of(message) {
        assert(message.subrange(0, relation.len() as int)[8] == message[8]);
        assert(message.subrange(0, relation.len() as int)[9] == message[9]);
    }
    if record.is_prefix_of(message) {
        assert(message.subrange(0, record.len() as int)[8] == message[8]);
    }
    if variable.is_prefix_of(message) {
        assert(message.subrange(0, variable.len() as int)[8] == message[8]);
    }
    if line.is_prefix_of(message) {
        assert(message.subrange(0, line.len() as int)[8] == message[8]);
        assert(message.subrange(0, line.len() as int)[9] == message[9]);
    }
}

impl ErrorKind {
    /// The words with which a message of this kind begins.
    pub fn prefix(self) -> (p: &'static str)
        ensures
            p@ == kind_prefix(self),
    {
        match self {
            ErrorKind::InvalidAccountRelation => "Invalid account relation: ",
            ErrorKind::InvalidDataRecord => "Invalid data record: ",
            ErrorKind::InvalidVariable => "Invalid variable record: ",
            ErrorKind::InvalidLine => "Invalid ads.txt line: ",
        }
    }
}

/// A parse failure: one message about one malformed line or token.
///
/// Errors are plain values. Two errors are equal when their messages are.
#[derive(Debug, Clone, PartialEq, Eq)]
pub struct AdsTxtError {
    message: String,
}

impl View for AdsTxtError {
    type V = Seq<char>;

    /// The message.
    closed spec fn view(&self) -> Seq<char> {
        self.message@
    }
}

impl AdsTxtError {
    /// An error with the given message.
    pub fn new(message: &str) -> (e: AdsTxtError)
        ensures
            e@ == message@,
    {
        AdsTxtError { message: String::from_str(message) }
    }

    /// The error of the given kind about the offending `text`.
    pub fn of_kind(kind: ErrorKind, text: &[char]) -> (e: AdsTxtError)
        ensures
            e@ == message_of(kind, text@),
    {
        let mut message = String::from_str(kind.prefix());
        push_chars(&mut message, text);
        AdsTxtError { message }
    }

    /// The kind and the offending text, if the message is one of any kind.
    fn parts(message: &[char]) -> (r: Option<(ErrorKind, &[char])>)
        ensures
            match r {
                Some((kind, text)) => kind_of(message@) == Some(kind) && offending_text_of(
                    message@,
                ) == Some(text@),
                None => kind_of(message@) is None,
            },
    {
        if let Some(text) = strip_prefix(message, ErrorKind::InvalidAccountRelation.prefix()) {
            Some((ErrorKind::InvalidAccountRelation, text))
        } else if let Some(text) = strip_prefix(message, ErrorKind::InvalidDataRecord.prefix()) {
            Some((ErrorKind::InvalidDataRecord, text))
        } else if let Some(text) = strip_prefix(message, ErrorKind::InvalidVariable.prefix()) {
            Some((ErrorKind::InvalidVariable, text))
        } else if let Some(text) = strip_prefix(message, ErrorKind::InvalidLine.prefix()) {
            Some((ErrorKind::InvalidLine, text))
        } else {
            None
        }
    }

    /// The kind of this error, told by the opening words of its message.
    pub fn kind(&self) -> (k: Option<ErrorKind>)
        ensures
            k == kind_of(self@),
    {
        let chars = chars_of(self.message.as_str());
        match Self::parts(chars.as_slice()) {
            Some((kind, _)) => Some(kind),
            None => None,
        }
    }

    /// The line or token that this error quotes.
    pub fn offending_text(&self) -> (t: Option<String>)
        ensures
            match t {
                Some(text) => offending_text_of(self@) == Some(text@),
                None => offending_text_of(self@) is None,
            },
    {
        let chars = chars_of(self.message.as_str());
        match Self::parts(chars.as_slice()) {
            Some((_, text)) => Some(string_of(text)),
            None => None,
        }
    }

    /// The message.
    pub fn message(&self) -> (m: &str)
        ensures
            m@ == self@,
    {
        self.message.as_str()
    }
}

/// The failure that carries `message`.
pub fn ads_txt_error<T>(message: &str) -> (r: Result<T, Box<AdsTxtError>>)
    ensures
        r is Err,
        r->Err_0@ == message@,
{
    Err(Box::new(AdsTxtError::new(message)))
}

} // verus!
