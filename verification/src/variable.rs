//! Variables: `name=value` lines.

use crate::error::{message_of, AdsTxtError, ErrorKind};
use crate::text::{
    chars_of, lemma_trimmed_is_trimmed, split, split_on, string_of, trim, trimmed, views_of,
};
use vstd::prelude::*;
use vstd::string::StringExecFns;

verus! {

/// A named value, such as a contact address or a subdomain.
#[derive(Debug, Clone, PartialEq, Eq)]
pub struct Variable {
    pub name: String,
    pub value: String,
}

/// What a variable holds, as mathematical values.
pub struct VariableView {
    pub name: Seq<char>,
    pub value: Seq<char>,
}

impl View for Variable {
    type V = VariableView;

    open spec fn view(&self) -> VariableView {
        VariableView { name: self.name@, value: self.value@ }
    }
}

impl VariableView {
    /// Whether neither name nor value begins or ends with whitespace.
    pub open spec fn is_trimmed(self) -> bool {
        &&& trimmed(self.name) == self.name
        &&& trimmed(self.value) == self.value
    }
}

/// The variable that `line` states, or the message that says why it states
/// none.
///
/// The line is cut at its equals signs. Exactly two fields are name and
/// value, each stored trimmed; any other number is an invalid variable, so a
/// value cannot itself hold an equals sign.
pub open spec fn variable_of(line: Seq<char>) -> Result<VariableView, Seq<char>> {
    let fields = split_on(line, '=');
    if fields.len() == 2 {
        Ok(VariableView { name: trimmed(fields[0]), value: trimmed(fields[1]) })
    } else {
        Err(message_of(ErrorKind::InvalidVariable, line))
    }
}

impl Variable {
    /// A variable with the given name and value, taken as they are.
    pub fn new(name: &str, value: &str) -> (v: Self)
        ensures
            v@ == (VariableView { name: name@, value: value@ }),
    {
        Variable { name: String::from_str(name), value: String::from_str(value) }
    }

    /// Reads a variable from one line.
    ///
    /// Succeeds exactly when the line holds one equals sign.
    pub fn parse(line: &str) -> (r: Result<Variable, Box<AdsTxtError>>)
        ensures
            match r {
                Ok(variable) => variable_of(line@) == Ok::<VariableView, Seq<char>>(variable@),
                Err(e) => variable_of(line@) == Err::<VariableView, Seq<char>>(e@),
            },
            r is Ok ==> r->Ok_0@.is_trimmed(),
    {
        let chars = chars_of(line);
        Self::parse_chars(chars.as_slice())
    }

    /// Reads a variable from one line given as characters.
    pub fn parse_chars(line: &[char]) -> (r: Result<Variable, Box<AdsTxtError>>)
        ensures
            match r {
                Ok(variable) => variable_of(line@) == Ok::<VariableView, Seq<char>>(variable@),
                Err(e) => variable_of(line@) == Err::<VariableView, Seq<char>>(e@),
            },
            r is Ok ==> r->Ok_0@.is_trimmed(),
    {
        proof {
            if variable_of(line@) is Ok {
                lemma_variable_of_is_trimmed(line@);
            }
        }
        let fields = split(line, '=');
        if fields.len() != 2 {
            return Err(Box::new(AdsTxtError::of_kind(ErrorKind::InvalidVariable, line)));
        }
        assert(views_of(fields@)[0] == fields@[0]@);
        assert(views_of(fields@)[1] == fields@[1]@);
        Ok(Variable { name: string_of(trim(fields[0])), value: string_of(trim(fields[1])) })
    }
}

/// Whitespace around name and value never reaches a variable read from a
/// line.
pub proof fn lemma_variable_of_is_trimmed(line: Seq<char>)
    requires
        variable_of(line) is Ok,
    ensures
        variable_of(line)->Ok_0.is_trimmed(),
{
    let fields = split_on(line, '=');
    lemma_trimmed_is_trimmed(fields[0]);
    lemma_trimmed_is_trimmed(fields[1]);
}

} // verus!
