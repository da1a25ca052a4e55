//! The parser: from a raw option value to a record.

use vstd::prelude::*;
use std::marker::PhantomData;
use crate::diagnostic::reported;
use crate::error::{SubOptError, SubOptErrorView};
use crate::grammar::{split_tokens, tokens, Token};
use crate::record::{applied, is_default, outcome_of, run, SubOpt};

verus! {

/// What parsing `raw` makes of `record`: its tokens applied to the record
/// from left to right, up to the first one that the record rejects.
pub open spec fn parsed<T: SubOpt>(record: T, raw: Seq<char>) -> Result<T, SubOptErrorView> {
    run(record, tokens(raw))
}

/// What a parse has returned, as contracts see it.
pub open spec fn outcome_view<T>(outcome: Result<T, SubOptError>) -> Result<T, SubOptErrorView> {
    match outcome {
        Ok(record) => Ok(record),
        Err(e) => Err(e@),
    }
}

/// What a parse comes to when its error is reported through clap.
pub open spec fn reported_outcome<T>(model: Result<T, SubOptErrorView>) -> Result<T, clap::Error> {
    match model {
        Ok(record) => Ok(record),
        Err(e) => Err(reported(e)),
    }
}

/// Hands one token to the update method for its kind: a token with `=` to
/// [`SubOpt::update_from_kvpair`], cut at the first `=`, and any other to
/// [`SubOpt::update_from_value`].
pub fn dispatch<T: SubOpt>(record: &mut T, token: &str) -> (outcome: Result<(), SubOptError>)
    ensures
        T::obeys_update_spec() ==> outcome_of(*final(record), outcome) == applied(
            *old(record),
            token@,
        ),
{
    match Token::classify(token) {
        Token::Value(value) => record.update_from_value(value),
        Token::Pair(key, value) => record.update_from_kvpair(key, value),
    }
}

/// Applies the sub-options in `raw` to `record`, from left to right, and
/// returns the record that results. The first sub-option that the record
/// rejects ends the work: its error is returned and the record is
/// dropped.
pub fn update_from_str<T: SubOpt>(record: T, raw: &str) -> (outcome: Result<T, SubOptError>)
    ensures
        T::obeys_update_spec() ==> outcome_view(outcome) == parsed(record, raw@),
{
    let pieces = split_tokens(raw);
    let mut current = record;
    let mut i: usize = 0;
    proof {
        assert(tokens(raw@).skip(0) =~= tokens(raw@));
    }
    while i < pieces.len()
        invariant
            i <= pieces.len(),
            pieces.deep_view() == tokens(raw@),
            T::obeys_update_spec() ==> run(current, tokens(raw@).skip(i as int)) == parsed(
                record,
                raw@,
            ),
        decreases pieces.len() - i,
    {
        let ghost remaining = tokens(raw@).skip(i as int);
        let ghost before = current;
        proof {
            assert(remaining[0] == pieces[i as int]@);
            assert(remaining.drop_first() =~= tokens(raw@).skip(i + 1));
            assert(run(before, remaining) == match applied(before, remaining[0]) {
                Ok(next) => run(next, remaining.drop_first()),
                Err(e) => Err(e),
            });
        }
        match dispatch(&mut current, pieces[i]) {
            Ok(_) => {},
            Err(e) => {
                return Err(e);
            },
        }
        i += 1;
    }
    Ok(current)
}

/// Parses an option value of the form `key1=val1:key2=val2` into a record
/// of type `T`.
pub struct SubOptParser<T> {
    _opt: PhantomData<T>,
}

impl<T> Default for SubOptParser<T> {
    fn default() -> Self {
        Self { _opt: PhantomData }
    }
}

impl<T> Clone for SubOptParser<T> {
    fn clone(&self) -> (copy: Self)
        ensures
            copy == *self,
    {
        Self { _opt: PhantomData }
    }
}

impl<T: SubOpt> SubOptParser<T> {
    /// Parses `raw` into a fresh record: the default value of `T` with
    /// the sub-options in `raw` applied to it, from left to right.
    ///
    /// The first sub-option that the record rejects ends the parse with
    /// that error; nothing after it is looked at, and no record is
    /// returned.
    pub fn parse(&self, raw: &str) -> (outcome: Result<T, SubOptError>)
        ensures
            T::obeys_update_spec() ==> exists|start: T|
                is_default(start) && outcome_view(outcome) == #[trigger] parsed(start, raw@),
    {
        let start = T::default();
        let outcome = update_from_str(start, raw);
        proof {
            if T::obeys_update_spec() {
                assert(outcome_view(outcome) == parsed(start, raw@));
            }
        }
        outcome
    }

    /// Parses `value` as [`parse`](SubOptParser::parse) does, and reports
    /// an error as clap wants it: as the `clap::Error` that
    /// `From<SubOptError>` makes of it.
    pub fn parse_ref(&self, value: &str) -> (outcome: Result<T, clap::Error>)
        ensures
            T::obeys_update_spec() ==> exists|start: T|
                is_default(start) && outcome == reported_outcome(#[trigger] parsed(start, value@)),
    {
        let plain = self.parse(value);
        let ghost start = choose|start: T|
            is_default(start) && outcome_view(plain) == #[trigger] parsed(start, value@);
        let outcome = match plain {
            Ok(record) => Ok(record),
            Err(e) => Err(clap::Error::from(e)),
        };
        proof {
            if T::obeys_update_spec() {
                assert(outcome == reported_outcome(parsed(start, value@)));
            }
        }
        outcome
    }
}

} // verus!
