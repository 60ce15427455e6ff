//! The relation between a publisher and a seller account.

use crate::error::{message_of, AdsTxtError, ErrorKind};
use crate::text::{
    all_space, ascii_lower, chars_of, is_space, lemma_trimmed_drops_padding,
    matches_ignoring_ascii_case, same_ignoring_ascii_case, trim, trimmed,
};
use vstd::prelude::*;

verus! {

/// Whether the seller owns the account or resells it.
#[derive(Debug, Clone, Copy, PartialEq, Eq, Structural)]
pub enum AccountRelation {
    /// The publisher controls the account directly.
    Direct,
    /// The publisher has authorized another party to resell.
    Reseller,
}

/// The relation that `token` names, if any: after trimming, the token must be
/// `direct` or `reseller` in full, in any mix of upper and lower case.
///
/// Only the case of ASCII letters is folded. That loses nothing: no character
/// outside ASCII has a letter of either word as its lower case.
pub open spec fn relation_of(token: Seq<char>) -> Option<AccountRelation> {
    let word = trimmed(token);
    if same_ignoring_ascii_case(word, "direct"@) {
        Some(AccountRelation::Direct)
    } else if same_ignoring_ascii_case(word, "reseller"@) {
        Some(AccountRelation::Reseller)
    } else {
        None
    }
}

impl AccountRelation {
    /// Reads a relation from `text`.
    ///
    /// Fails exactly when the token names no relation; the error then quotes
    /// the token as it was given, untrimmed.
    pub fn parse(text: &str) -> (r: Result<AccountRelation, Box<AdsTxtError>>)
        ensures
            match r {
                Ok(relation) => relation_of(text@) == Some(relation),
                Err(e) => relation_of(text@) is None && e@ == message_of(
                    ErrorKind::InvalidAccountRelation,
                    text@,
                ),
            },
    {
        let chars = chars_of(text);
        Self::parse_chars(chars.as_slice())
    }

    /// Reads a relation from a token given as characters.
    pub fn parse_chars(token: &[char]) -> (r: Result<AccountRelation, Box<AdsTxtError>>)
        ensures
            match r {
                Ok(relation) => relation_of(token@) == Some(relation),
                Err(e) => relation_of(token@) is None && e@ == message_of(
                    ErrorKind::InvalidAccountRelation,
                    token@,
                ),
            },
    {
        let word = trim(token);
        if matches_ignoring_ascii_case(word, "direct") {
            Ok(AccountRelation::Direct)
        } else if matches_ignoring_ascii_case(word, "reseller") {
            Ok(AccountRelation::Reseller)
        } else {
            Err(Box::new(AdsTxtError::of_kind(ErrorKind::InvalidAccountRelation, token)))
        }
    }
}

/// Neither the case of its letters nor the whitespace around it changes what
/// a token names: `direct` in any case, with any whitespace before and after,
/// is the direct relation, and `reseller` likewise the reseller relation.
pub proof fn lemma_relation_ignores_case_and_padding(
    left: Seq<char>,
    word: Seq<char>,
    right: Seq<char>,
)
    requires
        all_space(left),
        all_space(right),
    ensures
        same_ignoring_ascii_case(word, "direct"@) ==> relation_of(left + word + right) == Some(
            AccountRelation::Direct,
        ),
        same_ignoring_ascii_case(word, "reseller"@) ==> relation_of(left + word + right) == Some(
            AccountRelation::Reseller,
        ),
{
    reveal_strlit("direct");
    reveal_strlit("reseller");
    if same_ignoring_ascii_case(word, "direct"@) {
        assert(ascii_lower(word[0]) == ascii_lower("direct"@[0]));
        assert(ascii_lower(word[5]) == ascii_lower("direct"@[5]));
        assert(!is_space(word[0]) && !is_space(word.last()));
        lemma_trimmed_drops_padding(left, word, right);
    }
    if same_ignoring_ascii_case(word, "reseller"@) {
        assert(ascii_lower(word[0]) == ascii_lower("reseller"@[0]));
        assert(ascii_lower(word[7]) == ascii_lower("reseller"@[7]));
        assert(!is_space(word[0]) && !is_space(word.last()));
        lemma_trimmed_drops_padding(left, word, right);
    }
}

} // verus!
