//! The grammar of an option value.
//!
//! ```text
//! input := token (':' token)*
//! token := value | key '=' value
//! ```
//!
//! A value and a key are any text without the delimiter that ends them.
//! There is no quoting and no escaping: the first `:` ends a token and the
//! first `=` in a token ends its key.

use vstd::prelude::*;
use vstd::utf8::encode_utf8;
use crate::ascii::{
    is_ascii_char, lemma_encode_injective, lemma_first_byte_is_first_char, lemma_no_byte_no_char,
    lemma_prefix_is_boundary,
};

verus! {

/// The character between two tokens.
pub const TOKEN_DELIMITER: char = ':';

/// The character between a key and its value.
pub const KEY_VALUE_DELIMITER: char = '=';

/// `s` cut at the first `c`: what stands before it and what stands after
/// it. `None` where `c` does not occur in `s`.
pub open spec fn cut_at_first(s: Seq<char>, c: char) -> Option<(Seq<char>, Seq<char>)> {
    match s.index_of_first(c) {
        Some(i) => Some((s.take(i), s.skip(i + 1))),
        None => None,
    }
}

/// A cut takes `s` apart at a `c` and leaves no `c` in the first part;
/// there is a cut exactly where there is a `c`.
pub proof fn lemma_cut_at_first(s: Seq<char>, c: char)
    ensures
        cut_at_first(s, c) is Some <==> s.contains(c),
        cut_at_first(s, c) matches Some((head, tail)) ==> s == head + seq![c] + tail
            && !head.contains(c),
{
    s.index_of_first_ensures(c);
    if let Some(i) = s.index_of_first(c) {
        let head = s.take(i);
        let tail = s.skip(i + 1);
        assert(s =~= head + seq![c] + tail);
        assert(!head.contains(c)) by {
            if head.contains(c) {
                let j = choose|j: int| 0 <= j < head.len() && head[j] == c;
                assert(s[j] == c);
            }
        }
    }
}

/// The cut of `head + c + tail` is `(head, tail)` where `head` holds no
/// `c`: a string can be taken apart in one way only.
pub proof fn lemma_cut_at_first_unique(head: Seq<char>, c: char, tail: Seq<char>)
    requires
        !head.contains(c),
    ensures
        cut_at_first(head + seq![c] + tail, c) == Some((head, tail)),
{
    let s = head + seq![c] + tail;
    let n = head.len() as int;
    assert(s[n] == c);
    assert(s.contains(c));
    s.index_of_first_ensures(c);
    let i = s.index_of_first(c).unwrap();
    if i < n {
        assert(head[i] == s[i]);
        assert(head.contains(c));
    }
    assert(i == n);
    assert(s.take(i) =~= head);
    assert(s.skip(i + 1) =~= tail);
}

/// The tokens of an option value, in the order in which they stand.
///
/// Every `:` ends a token, so an empty string has one token, which is
/// empty, and `a::b` has three, the second of them empty.
pub open spec fn tokens(s: Seq<char>) -> Seq<Seq<char>>
    decreases s.len(),
    via tokens_decreases
{
    match cut_at_first(s, TOKEN_DELIMITER) {
        Some((head, tail)) => seq![head] + tokens(tail),
        None => seq![s],
    }
}

#[via_fn]
proof fn tokens_decreases(s: Seq<char>) {
    lemma_cut_at_first(s, TOKEN_DELIMITER);
}

/// The option value that is made of `pieces` with a `:` between each two
/// of them.
pub open spec fn join(pieces: Seq<Seq<char>>) -> Seq<char>
    decreases pieces.len(),
{
    if pieces.len() == 0 {
        Seq::empty()
    } else if pieces.len() == 1 {
        pieces[0]
    } else {
        pieces[0] + seq![TOKEN_DELIMITER] + join(pieces.drop_first())
    }
}

/// Whether no piece holds a `:`.
pub open spec fn delimiter_free(pieces: Seq<Seq<char>>) -> bool {
    forall|i: int| 0 <= i < pieces.len() ==> !(#[trigger] pieces[i]).contains(TOKEN_DELIMITER)
}

/// Three lists of pieces without a `:` make one such list.
pub proof fn lemma_delimiter_free_concat(
    a: Seq<Seq<char>>,
    b: Seq<Seq<char>>,
    c: Seq<Seq<char>>,
)
    requires
        delimiter_free(a),
        delimiter_free(b),
        delimiter_free(c),
    ensures
        delimiter_free(a + b + c),
{
    let all = a + b + c;
    assert forall|i: int| 0 <= i < all.len() implies !(#[trigger] all[i]).contains(
        TOKEN_DELIMITER,
    ) by {
        if i < a.len() {
            assert(all[i] == a[i]);
        } else if i < a.len() + b.len() {
            assert(all[i] == b[i - a.len()]);
        } else {
            assert(all[i] == c[i - a.len() - b.len()]);
        }
    }
}

/// An option value has at least one token, no token holds a `:`, and the
/// tokens joined by `:` are the option value again.
pub proof fn lemma_tokens_join(s: Seq<char>)
    ensures
        tokens(s).len() >= 1,
        delimiter_free(tokens(s)),
        join(tokens(s)) == s,
    decreases s.len(),
{
    lemma_cut_at_first(s, TOKEN_DELIMITER);
    match cut_at_first(s, TOKEN_DELIMITER) {
        Some((head, tail)) => {
            lemma_tokens_join(tail);
            let rest = tokens(tail);
            let all = seq![head] + rest;
            assert(all.drop_first() =~= rest);
            assert forall|i: int| 0 <= i < all.len() implies !(#[trigger] all[i]).contains(
                TOKEN_DELIMITER,
            ) by {
                if i > 0 {
                    assert(all[i] == rest[i - 1]);
                }
            }
        },
        None => {},
    }
}

/// Pieces without a `:` in them, at least one, are the tokens of the
/// option value that joins them: the grammar reads back what was written.
pub proof fn lemma_tokens_of_join(pieces: Seq<Seq<char>>)
    requires
        pieces.len() >= 1,
        delimiter_free(pieces),
    ensures
        tokens(join(pieces)) == pieces,
    decreases pieces.len(),
{
    if pieces.len() == 1 {
        assert(join(pieces) == pieces[0]);
        lemma_cut_at_first(pieces[0], TOKEN_DELIMITER);
        assert(tokens(pieces[0]) =~= pieces);
    } else {
        let rest = pieces.drop_first();
        assert forall|i: int| 0 <= i < rest.len() implies !(#[trigger] rest[i]).contains(
            TOKEN_DELIMITER,
        ) by {
            assert(rest[i] == pieces[i + 1]);
        }
        lemma_tokens_of_join(rest);
        lemma_cut_at_first_unique(pieces[0], TOKEN_DELIMITER, join(rest));
        assert(seq![pieces[0]] + rest =~= pieces);
    }
}

/// The tokens of `a:b` are those of `a`, then those of `b`.
pub proof fn lemma_tokens_concat(a: Seq<char>, b: Seq<char>)
    ensures
        tokens(a + seq![TOKEN_DELIMITER] + b) == tokens(a) + tokens(b),
    decreases a.len(),
{
    lemma_cut_at_first(a, TOKEN_DELIMITER);
    match cut_at_first(a, TOKEN_DELIMITER) {
        Some((head, tail)) => {
            lemma_tokens_concat(tail, b);
            let whole = a + seq![TOKEN_DELIMITER] + b;
            assert(whole =~= head + seq![TOKEN_DELIMITER] + (tail + seq![TOKEN_DELIMITER] + b));
            lemma_cut_at_first_unique(
                head,
                TOKEN_DELIMITER,
                tail + seq![TOKEN_DELIMITER] + b,
            );
            assert(seq![head] + (tokens(tail) + tokens(b)) =~= (seq![head] + tokens(tail))
                + tokens(b));
        },
        None => {
            lemma_cut_at_first_unique(a, TOKEN_DELIMITER, b);
        },
    }
}

/// Two delimiters in a row hold an empty token between them: the tokens
/// of `a::b` are those of `a`, then an empty one, then those of `b`.
pub proof fn lemma_tokens_empty_between(a: Seq<char>, b: Seq<char>)
    ensures
        tokens(a + seq![TOKEN_DELIMITER, TOKEN_DELIMITER] + b) == tokens(a) + seq![
            Seq::<char>::empty(),
        ] + tokens(b),
{
    let empty = Seq::<char>::empty();
    let tail = empty + seq![TOKEN_DELIMITER] + b;
    assert(a + seq![TOKEN_DELIMITER, TOKEN_DELIMITER] + b =~= a + seq![TOKEN_DELIMITER] + tail);
    lemma_tokens_concat(a, tail);
    lemma_tokens_concat(empty, b);
    lemma_cut_at_first(empty, TOKEN_DELIMITER);
    assert(tokens(empty) =~= seq![empty]);
    assert(tokens(a) + (seq![empty] + tokens(b)) =~= tokens(a) + seq![empty] + tokens(b));
}

/// A token as contracts see it.
pub enum TokenView {
    /// A token without `=`: a bare value.
    Value(Seq<char>),
    /// A token with `=`: the key before the first `=` and the value after
    /// it. Either may be empty.
    Pair(Seq<char>, Seq<char>),
}

/// The kind of a token: a pair where the token holds a `=`, cut at the
/// first one, and a bare value otherwise.
pub open spec fn classify(token: Seq<char>) -> TokenView {
    match cut_at_first(token, KEY_VALUE_DELIMITER) {
        Some((key, value)) => TokenView::Pair(key, value),
        None => TokenView::Value(token),
    }
}

/// A token without `=` is a bare value.
pub proof fn lemma_classify_value(token: Seq<char>)
    requires
        !token.contains(KEY_VALUE_DELIMITER),
    ensures
        classify(token) == TokenView::Value(token),
{
    lemma_cut_at_first(token, KEY_VALUE_DELIMITER);
}

/// `key=value` is a pair of `key` and `value` where `key` holds no `=`.
/// The value may hold more of them: only the first `=` cuts.
pub proof fn lemma_classify_pair(key: Seq<char>, value: Seq<char>)
    requires
        !key.contains(KEY_VALUE_DELIMITER),
    ensures
        classify(key + seq![KEY_VALUE_DELIMITER] + value) == TokenView::Pair(key, value),
{
    lemma_cut_at_first_unique(key, KEY_VALUE_DELIMITER, value);
}

/// One sub-option: a bare value or a key with its value.
#[derive(Debug, Clone, Copy, PartialEq, Eq)]
pub enum Token<'a> {
    /// A token without `=`.
    Value(&'a str),
    /// A token with `=`: the key and the value.
    Pair(&'a str, &'a str),
}

impl<'a> View for Token<'a> {
    type V = TokenView;

    open spec fn view(&self) -> TokenView {
        match self {
            Token::Value(value) => TokenView::Value(value@),
            Token::Pair(key, value) => TokenView::Pair(key@, value@),
        }
    }
}

/// Cuts `s` at the first `c`, as [`str::split_once`] does for a
/// character, in one pass over the bytes of `s`.
fn split_once<'a>(s: &'a str, c: char) -> (parts: Option<(&'a str, &'a str)>)
    requires
        is_ascii_char(c),
    ensures
        match parts {
            Some((head, tail)) => cut_at_first(s@, c) == Some((head@, tail@)),
            None => cut_at_first(s@, c) is None,
        },
{
    let bytes = s.as_bytes();
    let delimiter = c as u8;
    let n = bytes.len();
    let mut p: usize = 0;
    while p < n
        invariant
            bytes@ == encode_utf8(s@),
            n == bytes@.len(),
            p <= n,
            delimiter == c as u8,
            is_ascii_char(c),
            forall|q: int| 0 <= q < p ==> bytes@[q] != delimiter,
        decreases n - p,
    {
        if bytes[p] == delimiter {
            let ghost k = lemma_first_byte_is_first_char(s@, c, p as int);
            proof {
                lemma_prefix_is_boundary(s@, k);
                lemma_prefix_is_boundary(s@, k + 1);
            }
            let (head, _) = s.split_at(p);
            let (_, tail) = s.split_at(p + 1);
            proof {
                lemma_encode_injective(head@, s@.take(k));
                lemma_encode_injective(tail@, s@.skip(k + 1));
                assert(s@ =~= s@.take(k) + seq![c] + s@.skip(k + 1));
                lemma_cut_at_first_unique(head@, c, tail@);
            }
            return Some((head, tail));
        }
        p += 1;
    }
    proof {
        lemma_no_byte_no_char(s@, c);
        lemma_cut_at_first(s@, c);
    }
    None
}

/// Splits an option value into its tokens.
pub fn split_tokens<'a>(raw: &'a str) -> (pieces: Vec<&'a str>)
    ensures
        pieces.deep_view() == tokens(raw@),
{
    let mut pieces: Vec<&'a str> = Vec::new();
    let mut rest: &'a str = raw;
    loop
        invariant
            pieces.deep_view() + tokens(rest@) == tokens(raw@),
        decreases rest@.len(),
    {
        let ghost before = pieces.deep_view();
        proof {
            lemma_cut_at_first(rest@, TOKEN_DELIMITER);
        }
        match split_once(rest, TOKEN_DELIMITER) {
            Some((head, tail)) => {
                pieces.push(head);
                proof {
                    assert(pieces.deep_view() =~= before + seq![head@]);
                    assert((before + seq![head@]) + tokens(tail@) =~= before + (seq![head@]
                        + tokens(tail@)));
                }
                rest = tail;
            },
            None => {
                pieces.push(rest);
                proof {
                    assert(pieces.deep_view() =~= before + seq![rest@]);
                }
                return pieces;
            },
        }
    }
}

impl<'a> Token<'a> {
    /// Tells a pair from a bare value, and cuts a pair at its first `=`.
    pub fn classify(token: &'a str) -> (kind: Token<'a>)
        ensures
            kind@ == classify(token@),
    {
        match split_once(token, KEY_VALUE_DELIMITER) {
            Some((key, value)) => Token::Pair(key, value),
            None => Token::Value(token),
        }
    }
}

} // verus!
