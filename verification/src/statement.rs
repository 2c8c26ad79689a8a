//! What filling in the parameters of a statement does to it.
//!
//! A statement is a row of tokens: texts, and places for parameters such as `?1`.

use vstd::prelude::*;

use crate::dolt::{lemma_place_in, place_in, placeholder, sql_literal, substituted};
use crate::number::is_digit;
use crate::text::{decimal, digit_char, Text};

verus! {

/// A token of a statement.
pub enum Token {
    /// A text without a place.
    Plain(Text),
    /// The place of a parameter, counted from one.
    Place(nat),
}

/// Is each question mark in the text followed by something other than a digit?
pub open spec fn has_no_place(s: Text) -> bool {
    forall|i: int|
        0 <= i < s.len() && #[trigger] s[i] == '?' ==> i + 1 < s.len() && !is_digit(s[i + 1])
}

/// Can the token stand behind a place? No digit may, which would be taken for
/// one of its number.
pub open spec fn may_follow(token: Token) -> bool {
    token matches Token::Plain(t) ==> !is_digit(t[0])
}

/// Are the tokens those of a statement with so many parameters?
pub open spec fn is_statement(tokens: Seq<Token>, count: nat) -> bool {
    forall|i: int|
        #![trigger tokens[i]]
        0 <= i < tokens.len() ==> match tokens[i] {
            Token::Plain(t) => t.len() > 0 && has_no_place(t),
            Token::Place(n) => 1 <= n <= count && (i + 1 < tokens.len() ==> may_follow(
                tokens[i + 1],
            )),
        }
}

/// The text of a statement before its parameters are filled in.
pub open spec fn statement_text(tokens: Seq<Token>) -> Text
    decreases tokens.len(),
{
    if tokens.len() == 0 {
        Seq::empty()
    } else {
        (match tokens[0] {
            Token::Plain(t) => t,
            Token::Place(n) => placeholder(n),
        }) + statement_text(tokens.skip(1))
    }
}

/// The text of a statement with each place taken by the value of its parameter.
pub open spec fn filled_text(tokens: Seq<Token>, params: Seq<Text>) -> Text
    decreases tokens.len(),
{
    if tokens.len() == 0 {
        Seq::empty()
    } else {
        (match tokens[0] {
            Token::Plain(t) => t,
            Token::Place(n) => sql_literal(params[n - 1]),
        }) + filled_text(tokens.skip(1), params)
    }
}

// ─── Numbers ─────────────────────────────────────────────────────────

proof fn lemma_decimal(n: nat)
    ensures
        decimal(n).len() >= 1,
        decimal(n).len() >= 2 <==> n >= 10,
        forall|i: int| 0 <= i < decimal(n).len() ==> is_digit(#[trigger] decimal(n)[i]),
    decreases n,
{
    if n >= 10 {
        lemma_decimal(n / 10);
        let all = decimal(n);
        assert forall|i: int| 0 <= i < all.len() implies is_digit(#[trigger] all[i]) by {
            if i < all.len() - 1 {
                assert(all[i] == decimal(n / 10)[i]);
            }
        }
    }
}

proof fn lemma_decimal_grows(n: nat, k: nat)
    requires
        n <= k,
    ensures
        decimal(n).len() <= decimal(k).len(),
    decreases k,
{
    lemma_decimal(n);
    lemma_decimal(k);
    if n >= 10 {
        lemma_decimal_grows(n / 10, k / 10);
    }
}

proof fn lemma_decimal_is_injective(n: nat, k: nat)
    requires
        decimal(n) == decimal(k),
    ensures
        n == k,
    decreases n,
{
    lemma_decimal(n);
    lemma_decimal(k);
    if n < 10 {
        assert(decimal(n)[0] == digit_char(n as int));
        assert(decimal(k)[0] == digit_char(k as int));
    } else {
        assert(decimal(n).last() == digit_char((n % 10) as int));
        assert(decimal(k).last() == digit_char((k % 10) as int));
        assert(decimal(n).drop_last() =~= decimal(n / 10));
        assert(decimal(k).drop_last() =~= decimal(k / 10));
        lemma_decimal_is_injective(n / 10, k / 10);
    }
}

// ─── Places ──────────────────────────────────────────────────────────

/// What holds no place is passed over.
proof fn lemma_passed_over(t: Text, rest: Text, params: Seq<Text>)
    requires
        has_no_place(t),
    ensures
        substituted(t + rest, params) == t + substituted(rest, params),
    decreases t.len(),
{
    if t.len() == 0 {
        assert(t + rest =~= rest);
        assert(t + substituted(rest, params) =~= substituted(rest, params));
    } else {
        let whole = t + rest;
        let tail = t.skip(1);
        assert forall|i: int| 0 <= i < tail.len() && #[trigger] tail[i] == '?' implies i + 1
            < tail.len() && !is_digit(tail[i + 1]) by {
            assert(tail[i] == t[i + 1]);
        }
        lemma_passed_over(tail, rest, params);
        assert(whole.skip(1) =~= tail + rest);
        assert(whole[0] == t[0]);
        lemma_place_in(whole, params.len());
        let n = place_in(whole, params.len());
        if n > 0 {
            lemma_decimal(n);
            let place = placeholder(n);
            assert(place[0] == whole.subrange(0, place.len() as int)[0]);
            assert(place[1] == whole.subrange(0, place.len() as int)[1]);
            assert(is_digit(decimal(n)[0]));
            assert(whole[1] == t[1]);
        }
        assert(seq![t[0]] + (tail + substituted(rest, params)) =~= t + substituted(rest, params));
    }
}

/// A place is one of no other number.
proof fn lemma_other_place(n: nat, k: nat, rest: Text)
    requires
        n < k,
        rest.len() > 0 ==> !is_digit(rest[0]),
    ensures
        !placeholder(k).is_prefix_of(placeholder(n) + rest),
{
    let whole = placeholder(n) + rest;
    let part = placeholder(k);
    if part.is_prefix_of(whole) {
        lemma_decimal(n);
        lemma_decimal(k);
        lemma_decimal_grows(n, k);
        let a = decimal(n);
        let b = decimal(k);
        assert forall|i: int| 0 <= i < b.len() implies b[i] == whole[i + 1] by {
            assert(part[i + 1] == whole.subrange(0, part.len() as int)[i + 1]);
        }
        if a.len() == b.len() {
            assert forall|i: int| 0 <= i < a.len() implies a[i] == b[i] by {
                assert(b[i] == whole[i + 1]);
            }
            assert(a =~= b);
            lemma_decimal_is_injective(n, k);
        } else {
            let at = a.len() as int;
            assert(b[at] == whole[at + 1]);
            assert(whole[at + 1] == rest[0]);
            assert(is_digit(b[at]));
        }
    }
}

/// What stands behind a place does not begin with a digit.
proof fn lemma_rest_begins(tokens: Seq<Token>, count: nat)
    requires
        is_statement(tokens, count),
        tokens.len() > 0 ==> may_follow(tokens[0]),
    ensures
        statement_text(tokens).len() > 0 ==> !is_digit(statement_text(tokens)[0]),
{
    if tokens.len() > 0 {
        match tokens[0] {
            Token::Plain(t) => {
                assert(statement_text(tokens)[0] == t[0]);
            },
            Token::Place(n) => {
                assert(statement_text(tokens)[0] == placeholder(n)[0]);
            },
        }
    }
}

proof fn lemma_statement_rest(tokens: Seq<Token>, count: nat)
    requires
        is_statement(tokens, count),
        tokens.len() > 0,
    ensures
        is_statement(tokens.skip(1), count),
{
    let rest = tokens.skip(1);
    assert forall|i: int| #![trigger rest[i]] 0 <= i < rest.len() implies match rest[i] {
        Token::Plain(t) => t.len() > 0 && has_no_place(t),
        Token::Place(n) => 1 <= n <= count && (i + 1 < rest.len() ==> may_follow(rest[i + 1])),
    } by {
        assert(rest[i] == tokens[i + 1]);
        if i + 1 < rest.len() {
            assert(rest[i + 1] == tokens[i + 2]);
        }
    }
}

// ─── Laws ────────────────────────────────────────────────────────────

/// Filling in the parameters of a statement puts each of them, escaped, at each
/// of its places, and changes nothing else, whatever the values hold.
pub proof fn parameters_fill_their_places(tokens: Seq<Token>, params: Seq<Text>)
    requires
        is_statement(tokens, params.len()),
    ensures
        substituted(statement_text(tokens), params) == filled_text(tokens, params),
    decreases tokens.len(),
{
    if tokens.len() > 0 {
        let tail = tokens.skip(1);
        lemma_statement_rest(tokens, params.len());
        parameters_fill_their_places(tail, params);
        let rest = statement_text(tail);
        match tokens[0] {
            Token::Plain(t) => {
                lemma_passed_over(t, rest, params);
            },
            Token::Place(n) => {
                if tail.len() > 0 {
                    assert(tail[0] == tokens[1]);
                }
                lemma_rest_begins(tail, params.len());
                let part = placeholder(n);
                let whole = part + rest;
                assert(whole.subrange(0, part.len() as int) =~= part);
                lemma_place_in(whole, params.len());
                let found = place_in(whole, params.len());
                if found < n {
                    assert(!placeholder(n).is_prefix_of(whole));
                } else if found > n {
                    lemma_other_place(n, found, rest);
                }
                assert(whole.skip(part.len() as int) =~= rest);
            },
        }
    }
}

} // verus!
