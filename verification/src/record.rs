//! Data records: one authorized seller per line.

use crate::error::{message_of, AdsTxtError, ErrorKind};
use crate::relation::{relation_of, AccountRelation};
use crate::text::{
    chars_of, lemma_trimmed_is_trimmed, split, split_on, string_of, trim, trimmed, views_of,
};
use vstd::prelude::*;

verus! {

/// One authorized seller.
#[derive(Debug, Clone, PartialEq, Eq)]
pub struct DataRecord {
    /// Domain of the advertising system.
    pub domain: String,
    /// The publisher's account with that system.
    pub publisher_id: String,
    /// Whether the account is held directly or resold.
    pub acc_relation: AccountRelation,
    /// Identifier of the system with a certification authority, if given.
    pub cert_authority: Option<String>,
}

/// What a data record holds, as mathematical values.
pub struct RecordView {
    pub domain: Seq<char>,
    pub publisher_id: Seq<char>,
    pub acc_relation: AccountRelation,
    pub cert_authority: Option<Seq<char>>,
}

impl View for DataRecord {
    type V = RecordView;

    open spec fn view(&self) -> RecordView {
        RecordView {
            domain: self.domain@,
            publisher_id: self.publisher_id@,
            acc_relation: self.acc_relation,
            cert_authority: match self.cert_authority {
                Some(id) => Some(id@),
                None => None,
            },
        }
    }
}

impl RecordView {
    /// Whether no field begins or ends with whitespace.
    pub open spec fn is_trimmed(self) -> bool {
        &&& trimmed(self.domain) == self.domain
        &&& trimmed(self.publisher_id) == self.publisher_id
        &&& match self.cert_authority {
            Some(id) => trimmed(id) == id,
            None => true,
        }
    }
}

/// The record that `line` states, or the message that says why it states
/// none.
///
/// The line is cut at its commas. Three fields are domain, publisher id and
/// relation; a fourth is the certification authority. Every field is stored
/// trimmed. Another number of fields is an invalid data record; a third field
/// that names no relation is an invalid account relation.
pub open spec fn record_of(line: Seq<char>) -> Result<RecordView, Seq<char>> {
    let fields = split_on(line, ',');
    if fields.len() == 3 || fields.len() == 4 {
        match relation_of(fields[2]) {
            Some(relation) => Ok(
                RecordView {
                    domain: trimmed(fields[0]),
                    publisher_id: trimmed(fields[1]),
                    acc_relation: relation,
                    cert_authority: if fields.len() == 4 {
                        Some(trimmed(fields[3]))
                    } else {
                        None
                    },
                },
            ),
            None => Err(message_of(ErrorKind::InvalidAccountRelation, fields[2])),
        }
    } else {
        Err(message_of(ErrorKind::InvalidDataRecord, line))
    }
}

impl DataRecord {
    /// A record of the given parts; domain and publisher id are trimmed.
    pub fn new(
        domain: &str,
        publisher_id: &str,
        acc_relation: AccountRelation,
        cert_authority: Option<String>,
    ) -> (r: Self)
        ensures
            r@ == (RecordView {
                domain: trimmed(domain@),
                publisher_id: trimmed(publisher_id@),
                acc_relation,
                cert_authority: match cert_authority {
                    Some(id) => Some(id@),
                    None => None,
                },
            }),
    {
        let domain_chars = chars_of(domain);
        let publisher_chars = chars_of(publisher_id);
        DataRecord {
            domain: string_of(trim(domain_chars.as_slice())),
            publisher_id: string_of(trim(publisher_chars.as_slice())),
            acc_relation,
            cert_authority,
        }
    }

    /// Reads a record from one line.
    ///
    /// Succeeds exactly when the line has three or four comma-separated
    /// fields of which the third names a relation.
    pub fn parse(record_text: &str) -> (r: Result<DataRecord, Box<AdsTxtError>>)
        ensures
            match r {
                Ok(record) => record_of(record_text@) == Ok::<RecordView, Seq<char>>(record@),
                Err(e) => record_of(record_text@) == Err::<RecordView, Seq<char>>(e@),
            },
            r is Ok ==> r->Ok_0@.is_trimmed(),
    {
        let chars = chars_of(record_text);
        Self::parse_chars(chars.as_slice())
    }

    /// Reads a record from one line given as characters.
    pub fn parse_chars(line: &[char]) -> (r: Result<DataRecord, Box<AdsTxtError>>)
        ensures
            match r {
                Ok(record) => record_of(line@) == Ok::<RecordView, Seq<char>>(record@),
                Err(e) => record_of(line@) == Err::<RecordView, Seq<char>>(e@),
            },
            r is Ok ==> r->Ok_0@.is_trimmed(),
    {
        proof {
            if record_of(line@) is Ok {
                lemma_record_of_is_trimmed(line@);
            }
        }
        let fields = split(line, ',');
        let count: usize = fields.len();
        if count != 3 && count != 4 {
            return Err(Box::new(AdsTxtError::of_kind(ErrorKind::InvalidDataRecord, line)));
        }
        assert(views_of(fields@)[0] == fields@[0]@);
        assert(views_of(fields@)[1] == fields@[1]@);
        assert(views_of(fields@)[2] == fields@[2]@);
        let acc_relation = match AccountRelation::parse_chars(fields[2]) {
            Ok(relation) => relation,
            Err(e) => {
                return Err(e);
            },
        };
        let cert_authority = if count == 4 {
            assert(views_of(fields@)[3] == fields@[3]@);
            Some(string_of(trim(fields[3])))
        } else {
            None
        };
        Ok(
            DataRecord {
                domain: string_of(trim(fields[0])),
                publisher_id: string_of(trim(fields[1])),
                acc_relation,
                cert_authority,
            },
        )
    }
}

/// The certification authority goes by the number of fields: a record read
/// from three fields has none, and one read from four has the fourth field,
/// trimmed.
pub proof fn lemma_cert_authority_follows_field_count(line: Seq<char>)
    requires
        record_of(line) is Ok,
    ensures
        split_on(line, ',').len() == 3 || split_on(line, ',').len() == 4,
        split_on(line, ',').len() == 3 ==> record_of(line)->Ok_0.cert_authority
            == None::<Seq<char>>,
        split_on(line, ',').len() == 4 ==> record_of(line)->Ok_0.cert_authority == Some(
            trimmed(split_on(line, ',')[3]),
        ),
{
}

/// Whitespace around a field never reaches a record: every field of a record
/// read from a line is trimmed.
pub proof fn lemma_record_of_is_trimmed(line: Seq<char>)
    requires
        record_of(line) is Ok,
    ensures
        record_of(line)->Ok_0.is_trimmed(),
{
    let fields = split_on(line, ',');
    lemma_trimmed_is_trimmed(fields[0]);
    lemma_trimmed_is_trimmed(fields[1]);
    if fields.len() == 4 {
        lemma_trimmed_is_trimmed(fields[3]);
    }
}

} // verus!
