//! What holds of every parse.
//!
//! The lemmas here speak of [`parsed`], the model of a parse, on a record
//! that parsing starts with. They hold for every record type and every
//! option value.

use vstd::prelude::*;
use crate::error::SubOptErrorView;
use crate::grammar::{
    delimiter_free, join, lemma_classify_pair, lemma_classify_value, lemma_cut_at_first,
    lemma_delimiter_free_concat, lemma_tokens_concat, lemma_tokens_of_join, tokens,
    KEY_VALUE_DELIMITER, TOKEN_DELIMITER,
};
use crate::parser::parsed;
use crate::record::{
    applied, lemma_run_concat, lemma_run_first_rejection, lemma_run_in_order, run, value_applied,
    SubOpt,
};

verus! {

/// Parsing `a:b` is parsing `a` and then, from the record that this
/// leaves, parsing `b`. Where `a` fails, `b` does not matter.
pub proof fn lemma_parsed_concat<T: SubOpt>(record: T, a: Seq<char>, b: Seq<char>)
    ensures
        parsed(record, a + seq![TOKEN_DELIMITER] + b) == match parsed(record, a) {
            Ok(mid) => parsed(mid, b),
            Err(e) => Err(e),
        },
{
    lemma_tokens_concat(a, b);
    lemma_run_concat(record, tokens(a), tokens(b));
}

/// Tokens that are all accepted are applied one after the other, from
/// left to right: where `states` holds the record before each token of
/// `raw` and, at its end, the record after the last, each made from the
/// one before it by the token between them, the parse returns that last
/// record.
pub proof fn lemma_parsed_in_order<T: SubOpt>(raw: Seq<char>, states: Seq<T>)
    requires
        states.len() == tokens(raw).len() + 1,
        forall|i: int|
            0 <= i < tokens(raw).len() ==> applied(#[trigger] states[i], tokens(raw)[i]) == Ok::<
                T,
                SubOptErrorView,
            >(states[i + 1]),
    ensures
        parsed(states[0], raw) == Ok::<T, SubOptErrorView>(states.last()),
{
    lemma_run_in_order(tokens(raw), states);
}

/// The last token has the last word: it is applied to the record that
/// the option value before it has made. So what a token sets is not
/// touched again by anything that stands before it.
pub proof fn lemma_parsed_last_token<T: SubOpt>(record: T, head: Seq<char>, last: Seq<char>)
    requires
        !last.contains(TOKEN_DELIMITER),
    ensures
        parsed(record, head + seq![TOKEN_DELIMITER] + last) == match parsed(record, head) {
            Ok(mid) => applied(mid, last),
            Err(e) => Err(e),
        },
{
    lemma_parsed_concat(record, head, last);
    lemma_cut_at_first(last, TOKEN_DELIMITER);
    assert(tokens(last) =~= seq![last]);
    if let Ok(mid) = parsed(record, head) {
        assert(run(mid, seq![last]) == applied(mid, last)) by {
            reveal_with_fuel(run, 2);
        }
    }
}

/// An empty option value is one bare value, the empty one: parsing it is
/// one update from the empty value.
pub proof fn lemma_parsed_empty<T: SubOpt>(record: T)
    ensures
        parsed(record, Seq::<char>::empty()) == value_applied(record, Seq::<char>::empty()),
{
    let empty = Seq::<char>::empty();
    lemma_cut_at_first(empty, TOKEN_DELIMITER);
    lemma_classify_value(empty);
    assert(tokens(empty) =~= seq![empty]);
    assert(run(record, seq![empty]) == applied(record, empty)) by {
        reveal_with_fuel(run, 2);
    }
}

/// The first token that is rejected decides the parse, and nothing after
/// it is applied: where the tokens `before` are accepted and leave a
/// record that rejects `token` with `e`, the parse fails with `e`,
/// whatever the tokens `after` it are.
pub proof fn lemma_parsed_first_rejection<T: SubOpt>(
    record: T,
    before: Seq<Seq<char>>,
    token: Seq<char>,
    after: Seq<Seq<char>>,
    e: SubOptErrorView,
)
    requires
        delimiter_free(before),
        !token.contains(TOKEN_DELIMITER),
        delimiter_free(after),
        run(record, before) matches Ok(mid) && applied(mid, token) == Err::<T, SubOptErrorView>(
            e,
        ),
    ensures
        parsed(record, join(before + seq![token] + after)) == Err::<T, SubOptErrorView>(e),
{
    assert(delimiter_free(seq![token]));
    lemma_delimiter_free_concat(before, seq![token], after);
    lemma_tokens_of_join(before + seq![token] + after);
    lemma_run_first_rejection(record, before, token, after, e);
}

/// Lists of tokens that do the same to every record can stand for each
/// other anywhere in an option value.
///
/// So two tokens that set different things may change places (`a` is
/// both, `b` is both the other way round), and a token whose work the
/// next one undoes may be left out (`a` is both, `b` is the second).
pub proof fn lemma_parsed_replace<T: SubOpt>(
    record: T,
    before: Seq<Seq<char>>,
    a: Seq<Seq<char>>,
    b: Seq<Seq<char>>,
    after: Seq<Seq<char>>,
)
    requires
        delimiter_free(before),
        delimiter_free(a),
        delimiter_free(b),
        delimiter_free(after),
        a.len() >= 1,
        b.len() >= 1,
        forall|other: T| #[trigger] run(other, a) == run(other, b),
    ensures
        parsed(record, join(before + a + after)) == parsed(record, join(before + b + after)),
{
    lemma_delimiter_free_concat(before, a, after);
    lemma_delimiter_free_concat(before, b, after);
    lemma_tokens_of_join(before + a + after);
    lemma_tokens_of_join(before + b + after);
    assert(before + a + after =~= before + (a + after));
    assert(before + b + after =~= before + (b + after));
    lemma_run_concat(record, before, a + after);
    lemma_run_concat(record, before, b + after);
    if let Ok(mid) = run(record, before) {
        lemma_run_concat(mid, a, after);
        lemma_run_concat(mid, b, after);
    }
}

/// A pair with a key that the record does not know fails the parse with
/// `UnknownKey` of that key, where the tokens before the pair are
/// accepted, and whatever follows the pair.
pub proof fn lemma_unknown_key_named<T: SubOpt>(
    record: T,
    before: Seq<Seq<char>>,
    key: Seq<char>,
    value: Seq<char>,
    after: Seq<Seq<char>>,
)
    requires
        delimiter_free(before),
        !key.contains(TOKEN_DELIMITER),
        !key.contains(KEY_VALUE_DELIMITER),
        !value.contains(TOKEN_DELIMITER),
        delimiter_free(after),
        run(record, before) is Ok,
        !T::knows_key(key),
    ensures
        parsed(record, join(before + seq![key + seq![KEY_VALUE_DELIMITER] + value] + after))
            == Err::<T, SubOptErrorView>(SubOptErrorView::UnknownKey(key)),
{
    let token = key + seq![KEY_VALUE_DELIMITER] + value;
    lemma_classify_pair(key, value);
    assert(!token.contains(TOKEN_DELIMITER)) by {
        if token.contains(TOKEN_DELIMITER) {
            let i = choose|i: int| 0 <= i < token.len() && token[i] == TOKEN_DELIMITER;
            if i < key.len() {
                assert(key[i] == TOKEN_DELIMITER);
            } else if i > key.len() {
                assert(value[i - key.len() - 1] == TOKEN_DELIMITER);
            }
        }
    }
    lemma_parsed_first_rejection(record, before, token, after, SubOptErrorView::UnknownKey(key));
}

/// A bare value that the record knows neither as a value nor as a key
/// fails the parse with `UnknownKey` of that value, where the tokens
/// before it are accepted, and whatever follows it.
pub proof fn lemma_unknown_value_named<T: SubOpt>(
    record: T,
    before: Seq<Seq<char>>,
    value: Seq<char>,
    after: Seq<Seq<char>>,
)
    requires
        delimiter_free(before),
        !value.contains(TOKEN_DELIMITER),
        !value.contains(KEY_VALUE_DELIMITER),
        delimiter_free(after),
        run(record, before) is Ok,
        !T::knows_value(value),
        !T::knows_key(value),
    ensures
        parsed(record, join(before + seq![value] + after)) == Err::<T, SubOptErrorView>(
            SubOptErrorView::UnknownKey(value),
        ),
{
    lemma_classify_value(value);
    lemma_parsed_first_rejection(record, before, value, after, SubOptErrorView::UnknownKey(value));
}

/// A key that needs a value and stands alone fails the parse with
/// `MissingValueForKey` of that key, where the tokens before it are
/// accepted, and whatever follows it. A key needs a value where the
/// record knows it as the key of a pair and not as a bare value.
pub proof fn lemma_missing_value_named<T: SubOpt>(
    record: T,
    before: Seq<Seq<char>>,
    key: Seq<char>,
    after: Seq<Seq<char>>,
)
    requires
        delimiter_free(before),
        !key.contains(TOKEN_DELIMITER),
        !key.contains(KEY_VALUE_DELIMITER),
        delimiter_free(after),
        run(record, before) is Ok,
        T::knows_key(key),
        !T::knows_value(key),
    ensures
        parsed(record, join(before + seq![key] + after)) == Err::<T, SubOptErrorView>(
            SubOptErrorView::MissingValueForKey(key),
        ),
{
    lemma_classify_value(key);
    lemma_parsed_first_rejection(
        record,
        before,
        key,
        after,
        SubOptErrorView::MissingValueForKey(key),
    );
}

} // verus!
