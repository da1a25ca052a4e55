//! The contract between the parser and the record that it fills.

use vstd::prelude::*;
use crate::error::{SubOptError, SubOptErrorView};
use crate::grammar::{classify, TokenView};

verus! {

/// An argument that has sub-options.
///
/// The implementor must also implement [`Default`] with sensible
/// defaults. The record is then built up from the sub-options given as
/// arguments to its two update methods.
///
/// A record type that is itself verified states its rules in four spec
/// functions: which bare values and which keys it knows, and what a known
/// value and a pair with a known key do to it. It says that its update
/// methods follow these rules by letting
/// [`obeys_update_spec`](SubOpt::obeys_update_spec) be `true`. Whatever
/// this crate promises of a parse, it promises of such record types. A
/// record type written in plain Rust implements the two update methods
/// and nothing else.
pub trait SubOpt: Default + Send + Sync + 'static {
    /// Whether the two update methods follow the rules that the spec
    /// functions of this trait state: [`value_applied`] for a bare value
    /// and [`kvpair_applied`] for a pair.
    open spec fn obeys_update_spec() -> bool {
        false
    }

    /// Whether the record understands `value` as a bare value.
    open spec fn knows_value(value: Seq<char>) -> bool {
        arbitrary()
    }

    /// Whether the record understands `key` as the key of a pair.
    open spec fn knows_key(key: Seq<char>) -> bool {
        arbitrary()
    }

    /// What a bare value that the record knows does to it: the record
    /// that results, or a message that says why the value is rejected all
    /// the same.
    open spec fn known_value_spec(self, value: Seq<char>) -> Result<Self, Seq<char>> {
        arbitrary()
    }

    /// What a pair with a key that the record knows does to it: the
    /// record that results, or a message that says why the value cannot
    /// be taken, such as the failure to convert it.
    open spec fn known_kvpair_spec(self, key: Seq<char>, value: Seq<char>) -> Result<
        Self,
        Seq<char>,
    > {
        arbitrary()
    }

    /// Update from a single value, like in the example
    /// `--foo value1:value2:value3`.
    ///
    /// Each sub-option is a value without a key in the above example. The
    /// name of a key that needs a value is answered with
    /// [`SubOptError::MissingValueForKey`], and any other value that the
    /// record does not know with [`SubOptError::UnknownKey`].
    fn update_from_value(&mut self, k: &str) -> (outcome: Result<(), SubOptError>)
        ensures
            Self::obeys_update_spec() ==> outcome_of(*final(self), outcome) == value_rule(
                Self::knows_value(k@),
                Self::knows_key(k@),
                old(self).known_value_spec(k@),
                k@,
            ),
    ;

    /// Update from a key-value pair, like in the example
    /// `--foo key1=value1:key2=value2`.
    ///
    /// Each sub-option is a key-value pair in the above example. A key
    /// that the record does not know is answered with
    /// [`SubOptError::UnknownKey`], and a value that does not convert
    /// with [`SubOptError::Custom`].
    fn update_from_kvpair(&mut self, k: &str, v: &str) -> (outcome: Result<(), SubOptError>)
        ensures
            Self::obeys_update_spec() ==> outcome_of(*final(self), outcome) == kvpair_rule(
                Self::knows_key(k@),
                old(self).known_kvpair_spec(k@, v@),
                k@,
            ),
    ;
}

/// The rule for a bare value, which every record follows.
///
/// A value that the record knows does what the record says of it
/// (`known`), and where that is a rejection, the error is `Custom` with
/// the record's message. A value that the record knows as a key only is
/// a key whose value is missing. Any other value is unknown.
pub open spec fn value_rule<T>(
    knows_value: bool,
    knows_key: bool,
    known: Result<T, Seq<char>>,
    value: Seq<char>,
) -> Result<T, SubOptErrorView> {
    if knows_value {
        match known {
            Ok(next) => Ok(next),
            Err(message) => Err(SubOptErrorView::Custom(message)),
        }
    } else if knows_key {
        Err(SubOptErrorView::MissingValueForKey(value))
    } else {
        Err(SubOptErrorView::UnknownKey(value))
    }
}

/// The rule for a key with its value, which every record follows.
///
/// A pair with a key that the record knows does what the record says of
/// it (`known`), and where that is a rejection, the error is `Custom`
/// with the record's message. Any other key is unknown.
pub open spec fn kvpair_rule<T>(knows_key: bool, known: Result<T, Seq<char>>, key: Seq<char>) -> Result<
    T,
    SubOptErrorView,
> {
    if knows_key {
        match known {
            Ok(next) => Ok(next),
            Err(message) => Err(SubOptErrorView::Custom(message)),
        }
    } else {
        Err(SubOptErrorView::UnknownKey(key))
    }
}

/// What a bare value does to a record of type `T`.
pub open spec fn value_applied<T: SubOpt>(record: T, value: Seq<char>) -> Result<
    T,
    SubOptErrorView,
> {
    value_rule(T::knows_value(value), T::knows_key(value), record.known_value_spec(value), value)
}

/// What a key with its value does to a record of type `T`.
pub open spec fn kvpair_applied<T: SubOpt>(record: T, key: Seq<char>, value: Seq<char>) -> Result<
    T,
    SubOptErrorView,
> {
    kvpair_rule(T::knows_key(key), record.known_kvpair_spec(key, value), key)
}

/// Whether `record` is a default value of `T`: one that `T::default()`
/// may return. A parse starts with such a record.
pub open spec fn is_default<T: SubOpt>(record: T) -> bool {
    call_ensures(T::default, (), record)
}

/// What an update has come to: the record as it was left where the update
/// succeeded, and the error where it did not. A record that an update has
/// rejected is not looked at again.
pub open spec fn outcome_of<T>(record: T, outcome: Result<(), SubOptError>) -> Result<
    T,
    SubOptErrorView,
> {
    match outcome {
        Ok(_) => Ok(record),
        Err(e) => Err(e@),
    }
}

/// What one token does to a record: a bare value goes to the rule for
/// values, a pair to the rule for pairs.
pub open spec fn applied<T: SubOpt>(record: T, token: Seq<char>) -> Result<T, SubOptErrorView> {
    match classify(token) {
        TokenView::Value(value) => value_applied(record, value),
        TokenView::Pair(key, value) => kvpair_applied(record, key, value),
    }
}

/// What a list of tokens does to a record: each token is applied to what
/// the tokens before it have made of the record, and the first token that
/// is rejected ends the run with its error.
pub open spec fn run<T: SubOpt>(record: T, tokens: Seq<Seq<char>>) -> Result<T, SubOptErrorView>
    decreases tokens.len(),
{
    if tokens.len() == 0 {
        Ok(record)
    } else {
        match applied(record, tokens[0]) {
            Ok(next) => run(next, tokens.drop_first()),
            Err(e) => Err(e),
        }
    }
}

/// A run over two lists in a row is a run over the first and then, from
/// the record that it leaves, a run over the second. Where the first
/// fails, the second does not matter.
pub proof fn lemma_run_concat<T: SubOpt>(record: T, first: Seq<Seq<char>>, second: Seq<Seq<char>>)
    ensures
        run(record, first + second) == match run(record, first) {
            Ok(mid) => run(mid, second),
            Err(e) => Err(e),
        },
    decreases first.len(),
{
    if first.len() == 0 {
        assert(first + second =~= second);
    } else {
        let all = first + second;
        assert(all[0] == first[0]);
        assert(all.drop_first() =~= first.drop_first() + second);
        match applied(record, first[0]) {
            Ok(next) => {
                lemma_run_concat(next, first.drop_first(), second);
            },
            Err(_) => {},
        }
    }
}

/// Where each token is accepted by the record that the tokens before it
/// have made, the run ends in the last of these records: `states` holds
/// the record before each token and, at its end, the record after all.
pub proof fn lemma_run_in_order<T: SubOpt>(tokens: Seq<Seq<char>>, states: Seq<T>)
    requires
        states.len() == tokens.len() + 1,
        forall|i: int|
            0 <= i < tokens.len() ==> applied(#[trigger] states[i], tokens[i]) == Ok::<
                T,
                SubOptErrorView,
            >(states[i + 1]),
    ensures
        run(states[0], tokens) == Ok::<T, SubOptErrorView>(states.last()),
    decreases tokens.len(),
{
    if tokens.len() > 0 {
        let rest = tokens.drop_first();
        let later = states.drop_first();
        assert forall|i: int| 0 <= i < rest.len() implies applied(
            #[trigger] later[i],
            rest[i],
        ) == Ok::<T, SubOptErrorView>(later[i + 1]) by {
            assert(later[i] == states[i + 1]);
            assert(applied(states[i + 1], tokens[i + 1]) == Ok::<T, SubOptErrorView>(
                states[i + 2],
            ));
        }
        lemma_run_in_order(rest, later);
        assert(applied(states[0], tokens[0]) == Ok::<T, SubOptErrorView>(states[1]));
        assert(later.last() == states.last());
    }
}

/// The first token that is rejected decides the run: where the tokens
/// `before` are accepted and leave a record that rejects `token` with
/// `e`, the run fails with `e`, whatever the tokens `after` it are.
pub proof fn lemma_run_first_rejection<T: SubOpt>(
    record: T,
    before: Seq<Seq<char>>,
    token: Seq<char>,
    after: Seq<Seq<char>>,
    e: SubOptErrorView,
)
    requires
        run(record, before) matches Ok(mid) && applied(mid, token) == Err::<T, SubOptErrorView>(
            e,
        ),
    ensures
        run(record, before + seq![token] + after) == Err::<T, SubOptErrorView>(e),
{
    let mid = run(record, before)->Ok_0;
    let rest = seq![token] + after;
    assert(before + seq![token] + after =~= before + rest);
    lemma_run_concat(record, before, rest);
    assert(rest[0] == token);
}

} // verus!
