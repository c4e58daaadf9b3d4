//! Laws of the lexer: tokens depend only on the text from their start on,
//! and rejoining the lexemes of a source gives back the same tokens.

use vstd::prelude::*;
use crate::lexer::{
    eof_of, ident_end, is_ident_char, is_letter, is_two_char_at, is_ws, number_kind,
    digits_end, has_fraction_at, is_digit, lemma_digits_end, lemma_str_end, number_end,
    lemma_ident_end, lemma_number_run_end, lemma_scan_end, lemma_skip_ws, lex_from, lex_spec,
    number_run_end, scan_end, scan_kind, scan_lexeme, skip_ws, str_end, token_at,
    TokenModel, TokenType,
};

verus! {

/// Kind and text of each token, without positions.
pub open spec fn kinds_and_texts(ts: Seq<TokenModel>) -> Seq<(TokenType, Seq<char>)> {
    ts.map_values(|t: TokenModel| (t.0, t.1))
}

/// The lexemes of `ts`, each followed by one space.
pub open spec fn join_lexemes(ts: Seq<TokenModel>) -> Seq<char>
    decreases ts.len(),
{
    if ts.len() == 0 {
        Seq::empty()
    } else {
        ts[0].1 + seq![' '] + join_lexemes(ts.drop_first())
    }
}

/// No token is malformed.
pub open spec fn plain_tokens(ts: Seq<TokenModel>) -> bool {
    forall|i: int| 0 <= i < ts.len() ==> #[trigger] ts[i].0 != TokenType::Unknown
}

proof fn lemma_skip_ws_shift(x: Seq<char>, y: Seq<char>, p: int)
    requires
        0 <= p <= y.len(),
    ensures
        skip_ws(x + y, x.len() + p) == x.len() + skip_ws(y, p),
    decreases y.len() - p,
{
    if p < y.len() {
        assert((x + y)[x.len() + p] == y[p]);
        lemma_skip_ws_shift(x, y, p + 1);
    }
}

proof fn lemma_ident_end_shift(x: Seq<char>, y: Seq<char>, p: int)
    requires
        0 <= p <= y.len(),
    ensures
        ident_end(x + y, x.len() + p) == x.len() + ident_end(y, p),
    decreases y.len() - p,
{
    if p < y.len() {
        assert((x + y)[x.len() + p] == y[p]);
        lemma_ident_end_shift(x, y, p + 1);
    }
}

proof fn lemma_number_run_end_shift(x: Seq<char>, y: Seq<char>, p: int)
    requires
        0 <= p <= y.len(),
    ensures
        number_run_end(x + y, x.len() + p) == x.len() + number_run_end(y, p),
    decreases y.len() - p,
{
    if p < y.len() {
        assert((x + y)[x.len() + p] == y[p]);
        lemma_number_run_end_shift(x, y, p + 1);
    }
}

proof fn lemma_digits_end_shift(x: Seq<char>, y: Seq<char>, p: int)
    requires
        0 <= p <= y.len(),
    ensures
        digits_end(x + y, x.len() + p) == x.len() + digits_end(y, p),
    decreases y.len() - p,
{
    if p < y.len() {
        assert((x + y)[x.len() + p] == y[p]);
        lemma_digits_end_shift(x, y, p + 1);
    }
}

proof fn lemma_number_shift(x: Seq<char>, y: Seq<char>, q: int)
    requires
        0 <= q < y.len(),
    ensures
        number_end(x + y, x.len() + q) == x.len() + number_end(y, q),
        number_kind(x + y, x.len() + q) == number_kind(y, q),
{
    let z = x + y;
    let n = x.len() as int;
    lemma_digits_end_shift(x, y, q);
    lemma_digits_end(y, q);
    let a = digits_end(y, q);
    if a + 1 < y.len() {
        assert(z[n + a] == y[a] && z[n + a + 1] == y[a + 1]);
    }
    assert(has_fraction_at(z, n + a) == has_fraction_at(y, a));
    if has_fraction_at(y, a) {
        lemma_digits_end_shift(x, y, a + 1);
        lemma_digits_end(y, a + 1);
        let b = digits_end(y, a + 1);
        if b + 1 < y.len() {
            assert(z[n + b] == y[b] && z[n + b + 1] == y[b + 1]);
        }
        assert(has_fraction_at(z, n + b) == has_fraction_at(y, b));
        if has_fraction_at(y, b) {
            lemma_number_run_end_shift(x, y, b);
        }
    }
}

proof fn lemma_str_shift(x: Seq<char>, y: Seq<char>, i: int)
    requires
        0 <= i,
    ensures
        str_end(x + y, x.len() + i) == x.len() + str_end(y, i),
    decreases y.len() - i,
{
    if i < y.len() {
        assert((x + y)[x.len() + i] == y[i]);
        if i + 1 < y.len() {
            assert((x + y)[x.len() + i + 1] == y[i + 1]);
        }
        lemma_str_shift(x, y, i + 1);
        if i + 1 < y.len() {
            lemma_str_shift(x, y, i + 2);
        }
    }
}

proof fn lemma_scan_shift(x: Seq<char>, y: Seq<char>, q: int)
    requires
        0 <= q < y.len(),
    ensures
        scan_end(x + y, x.len() + q) == x.len() + scan_end(y, q),
        scan_kind(x + y, x.len() + q) == scan_kind(y, q),
        scan_lexeme(x + y, x.len() + q) == scan_lexeme(y, q),
{
    let z = x + y;
    let n = x.len() as int;
    assert(z[n + q] == y[q]);
    if q + 1 < y.len() {
        assert(z[n + q + 1] == y[q + 1]);
    }
    lemma_ident_end_shift(x, y, q);
    lemma_number_shift(x, y, q);
    lemma_str_shift(x, y, q + 1);
    lemma_ident_end(y, q);
    lemma_scan_end(y, q);
    assert(z.subrange(n + q, n + ident_end(y, q)) =~= y.subrange(q, ident_end(y, q)));
    assert(z.subrange(n + q, n + scan_end(y, q)) =~= y.subrange(q, scan_end(y, q)));
}

/// Tokens depend only on the text from where scanning starts: text put in
/// front shifts their positions and keeps their kinds and texts.
pub proof fn lemma_lex_shift(x: Seq<char>, y: Seq<char>, p: int)
    requires
        0 <= p <= y.len(),
    ensures
        kinds_and_texts(lex_from(x + y, x.len() + p)) == kinds_and_texts(lex_from(y, p)),
    decreases y.len() - p,
{
    let z = x + y;
    let n = x.len() as int;
    lemma_skip_ws_shift(x, y, p);
    lemma_skip_ws(y, p);
    let q = skip_ws(y, p);
    if q < y.len() {
        lemma_scan_shift(x, y, q);
        lemma_scan_end(y, q);
        let e = scan_end(y, q);
        lemma_lex_shift(x, y, e);
        let a = lex_from(z, n + p);
        let b = lex_from(y, p);
        assert(a == seq![token_at(z, n + q)] + lex_from(z, n + e));
        assert(b == seq![token_at(y, q)] + lex_from(y, e));
        let ka = kinds_and_texts(lex_from(z, n + e));
        let kb = kinds_and_texts(lex_from(y, e));
        assert(kinds_and_texts(a) =~= seq![(scan_kind(y, q), scan_lexeme(y, q))] + ka);
        assert(kinds_and_texts(b) =~= seq![(scan_kind(y, q), scan_lexeme(y, q))] + kb);
    } else {
        assert(kinds_and_texts(lex_from(z, n + p)) =~= seq![(TokenType::EOF, Seq::<char>::empty())]);
        assert(kinds_and_texts(lex_from(y, p)) =~= seq![(TokenType::EOF, Seq::<char>::empty())]);
    }
}

proof fn lemma_ident_run(s: Seq<char>, p: int, i: int)
    requires
        0 <= p <= i < ident_end(s, p),
        p <= s.len(),
    ensures
        is_ident_char(s[i]),
    decreases s.len() - p,
{
    if p < i {
        lemma_ident_run(s, p + 1, i);
    }
}

proof fn lemma_digits_run(s: Seq<char>, p: int, i: int)
    requires
        0 <= p <= i < digits_end(s, p),
        p <= s.len(),
    ensures
        is_digit(s[i]),
    decreases s.len() - p,
{
    if p < i {
        lemma_digits_run(s, p + 1, i);
    }
}

proof fn lemma_ident_end_at(z: Seq<char>, i: int, j: int)
    requires
        0 <= i <= j < z.len(),
        forall|k: int| i <= k < j ==> is_ident_char(#[trigger] z[k]),
        !is_ident_char(z[j]),
    ensures
        ident_end(z, i) == j,
    decreases j - i,
{
    if i < j {
        lemma_ident_end_at(z, i + 1, j);
    }
}

proof fn lemma_digits_end_at(z: Seq<char>, i: int, j: int)
    requires
        0 <= i <= j < z.len(),
        forall|k: int| i <= k < j ==> is_digit(#[trigger] z[k]),
        !is_digit(z[j]),
    ensures
        digits_end(z, i) == j,
    decreases j - i,
{
    if i < j {
        lemma_digits_end_at(z, i + 1, j);
    }
}

/// The digits from `i` on in `s` reappear `d` places earlier in `z`,
/// followed there by a character that is not a digit.
proof fn lemma_digits_copy(s: Seq<char>, z: Seq<char>, i: int, d: int)
    requires
        0 <= i <= s.len(),
        0 <= i - d,
        digits_end(s, i) - d < z.len(),
        forall|k: int| i <= k < digits_end(s, i) ==> z[k - d] == s[k],
        !is_digit(z[digits_end(s, i) - d]),
    ensures
        digits_end(z, i - d) == digits_end(s, i) - d,
{
    lemma_digits_end(s, i);
    assert forall|k: int| i - d <= k < digits_end(s, i) - d implies is_digit(#[trigger] z[k]) by {
        lemma_digits_run(s, i, k + d);
        assert(z[k] == s[k + d]);
    }
    lemma_digits_end_at(z, i - d, digits_end(s, i) - d);
}

/// The string contents from `i` up to the closing quote at `str_end(s, i)`
/// reappear `d` places earlier in `z`: the quote closes there too.
proof fn lemma_str_end_copy(s: Seq<char>, z: Seq<char>, i: int, d: int)
    requires
        0 <= i,
        str_end(s, i) < s.len(),
        0 <= i - d,
        str_end(s, i) - d < z.len(),
        forall|k: int| i <= k <= str_end(s, i) ==> z[k - d] == s[k],
    ensures
        str_end(z, i - d) == str_end(s, i) - d,
    decreases s.len() - i,
{
    lemma_str_end(s, i);
    let j = str_end(s, i);
    if s[i] == '"' {
        assert(z[i - d] == s[i]);
    } else if s[i] == '\\' && i + 1 < s.len() {
        lemma_str_end(s, i + 2);
        assert(z[i - d] == s[i]);
        lemma_str_end_copy(s, z, i + 2, d);
    } else {
        lemma_str_end(s, i + 1);
        assert(z[i - d] == s[i]);
        lemma_str_end_copy(s, z, i + 1, d);
    }
}

/// A well-formed numeric literal followed by a space is scanned again alike.
proof fn lemma_number_alone(s: Seq<char>, q: int, z: Seq<char>)
    requires
        0 <= q < s.len(),
        is_digit(s[q]),
        number_kind(s, q) != TokenType::Unknown,
        q < number_end(s, q) <= s.len(),
        number_end(s, q) - q < z.len(),
        forall|k: int| q <= k < number_end(s, q) ==> #[trigger] z[k - q] == s[k],
        z[number_end(s, q) - q] == ' ',
    ensures
        number_end(z, 0) == number_end(s, q) - q,
        number_kind(z, 0) == number_kind(s, q),
{
    let e = number_end(s, q);
    lemma_digits_end(s, q);
    let a = digits_end(s, q);
    if has_fraction_at(s, a) {
        lemma_digits_end(s, a + 1);
        lemma_digits_end(s, a + 2);
        let b = digits_end(s, a + 1);
        assert(e == b);
        assert(z[a - q] == s[a]);
        assert(z[a + 1 - q] == s[a + 1]);
        lemma_digits_copy(s, z, q, q);
        lemma_digits_copy(s, z, a + 1, q);
        assert(has_fraction_at(z, a - q));
        assert(!has_fraction_at(z, b - q));
    } else {
        assert(e == a);
        lemma_digits_copy(s, z, q, q);
        assert(!has_fraction_at(z, a - q));
    }
}

/// A well-formed token followed by a space is scanned again as the same token.
proof fn lemma_token_alone(s: Seq<char>, q: int, rest: Seq<char>)
    requires
        0 <= q < s.len(),
        !is_ws(s[q]),
        scan_kind(s, q) != TokenType::Unknown,
    ensures
        ({
            let w = scan_lexeme(s, q);
            let z = w + seq![' '] + rest;
            &&& w.len() >= 1
            &&& skip_ws(z, 0) == 0
            &&& scan_end(z, 0) == w.len()
            &&& scan_kind(z, 0) == scan_kind(s, q)
            &&& scan_lexeme(z, 0) == w
        }),
{
    lemma_scan_end(s, q);
    lemma_ident_end(s, q);
    let e = scan_end(s, q);
    let w = scan_lexeme(s, q);
    let z = w + seq![' '] + rest;
    let m = w.len() as int;
    assert(z[m] == ' ');
    assert forall|k: int| q <= k < e implies #[trigger] z[k - q] == s[k] by {}
    assert(z.subrange(0, m) =~= w);
    if is_letter(s[q]) {
        assert forall|k: int| 0 <= k < m implies is_ident_char(#[trigger] z[k]) by {
            lemma_ident_run(s, q, q + k);
        }
        lemma_ident_end_at(z, 0, m);
    } else if is_digit(s[q]) {
        lemma_number_alone(s, q, z);
    } else if s[q] == '"' {
        lemma_str_end(s, q + 1);
        assert(str_end(s, q + 1) < s.len());
        lemma_str_end_copy(s, z, q + 1, q);
    } else if is_two_char_at(s, q) {
        assert(z[1] == s[q + 1]);
    }
}

proof fn lemma_round_trip_from(s: Seq<char>, p: int)
    requires
        0 <= p <= s.len(),
        plain_tokens(lex_from(s, p)),
    ensures
        kinds_and_texts(lex_from(join_lexemes(lex_from(s, p)), 0)) == kinds_and_texts(
            lex_from(s, p),
        ),
    decreases s.len() - p,
{
    lemma_skip_ws(s, p);
    let q = skip_ws(s, p);
    let ts = lex_from(s, p);
    if q < s.len() {
        lemma_scan_end(s, q);
        let e = scan_end(s, q);
        let rest_ts = lex_from(s, e);
        assert(ts == seq![token_at(s, q)] + rest_ts);
        assert(plain_tokens(rest_ts)) by {
            assert forall|i: int| 0 <= i < rest_ts.len() implies #[trigger] rest_ts[i].0
                != TokenType::Unknown by {
                assert(rest_ts[i] == ts[i + 1]);
            }
        }
        assert(ts[0].0 != TokenType::Unknown);
        lemma_round_trip_from(s, e);
        let w = scan_lexeme(s, q);
        let jr = join_lexemes(rest_ts);
        assert(ts.drop_first() =~= rest_ts);
        let z = join_lexemes(ts);
        assert(z == w + seq![' '] + jr);
        lemma_token_alone(s, q, jr);
        let m = w.len() as int;
        let x = w + seq![' '];
        assert(z == x + jr);
        lemma_scan_end(z, 0);
        assert(lex_from(z, 0) == seq![token_at(z, 0)] + lex_from(z, m));
        assert(z[m] == ' ');
        assert(skip_ws(z, m) == skip_ws(z, m + 1));
        assert(lex_from(z, m) == lex_from(z, m + 1));
        lemma_lex_shift(x, jr, 0);
        assert(x.len() + 0 == m + 1);
        let kz = kinds_and_texts(lex_from(z, m + 1));
        assert(kinds_and_texts(lex_from(z, 0)) =~= seq![(scan_kind(s, q), w)] + kz);
        assert(kinds_and_texts(ts) =~= seq![(scan_kind(s, q), w)] + kinds_and_texts(rest_ts));
    } else {
        assert(ts == seq![eof_of(s)]);
        let z = join_lexemes(ts);
        assert(ts.drop_first() =~= Seq::<TokenModel>::empty());
        assert(join_lexemes(Seq::<TokenModel>::empty()) =~= Seq::<char>::empty());
        assert(ts[0].1 =~= Seq::<char>::empty());
        assert(z =~= seq![' ']);
        assert(skip_ws(z, 1) == 1);
        assert(skip_ws(z, 0) == 1);
        assert(kinds_and_texts(lex_from(z, 0)) =~= seq![(TokenType::EOF, Seq::<char>::empty())]);
        assert(kinds_and_texts(ts) =~= seq![(TokenType::EOF, Seq::<char>::empty())]);
    }
}

/// The characters of `s` from `p` on that are not whitespace.
pub open spec fn strip_ws(s: Seq<char>, p: int) -> Seq<char>
    decreases s.len() - p,
{
    if 0 <= p < s.len() {
        (if is_ws(s[p]) {
            Seq::empty()
        } else {
            seq![s[p]]
        }) + strip_ws(s, p + 1)
    } else {
        Seq::empty()
    }
}

/// The lexemes of `ts`, one after the other.
pub open spec fn concat_lexemes(ts: Seq<TokenModel>) -> Seq<char>
    decreases ts.len(),
{
    if ts.len() == 0 {
        Seq::empty()
    } else {
        ts[0].1 + concat_lexemes(ts.drop_first())
    }
}

/// No token is malformed or a string literal.
pub open spec fn no_strings(ts: Seq<TokenModel>) -> bool {
    forall|i: int|
        0 <= i < ts.len() ==> #[trigger] ts[i].0 != TokenType::Unknown && ts[i].0
            != TokenType::StringLiteral
}

proof fn lemma_strip_skip(s: Seq<char>, p: int)
    requires
        0 <= p <= s.len(),
    ensures
        strip_ws(s, p) == strip_ws(s, skip_ws(s, p)),
    decreases s.len() - p,
{
    if p < s.len() && is_ws(s[p]) {
        lemma_strip_skip(s, p + 1);
        assert(strip_ws(s, p) =~= strip_ws(s, p + 1));
    }
}

proof fn lemma_strip_run(s: Seq<char>, p: int, e: int)
    requires
        0 <= p <= e <= s.len(),
        forall|k: int| p <= k < e ==> !is_ws(#[trigger] s[k]),
    ensures
        strip_ws(s, p) == s.subrange(p, e) + strip_ws(s, e),
    decreases e - p,
{
    if p < e {
        lemma_strip_run(s, p + 1, e);
        assert(strip_ws(s, p) =~= s.subrange(p, e) + strip_ws(s, e));
    } else {
        assert(s.subrange(p, e) =~= Seq::<char>::empty());
    }
}

/// A token that is neither malformed nor a string literal holds no whitespace.
proof fn lemma_token_has_no_ws(s: Seq<char>, q: int)
    requires
        0 <= q < s.len(),
        !is_ws(s[q]),
        scan_kind(s, q) != TokenType::Unknown,
        scan_kind(s, q) != TokenType::StringLiteral,
    ensures
        forall|k: int| q <= k < scan_end(s, q) ==> !is_ws(#[trigger] s[k]),
{
    lemma_scan_end(s, q);
    if is_letter(s[q]) {
        assert forall|k: int| q <= k < scan_end(s, q) implies !is_ws(#[trigger] s[k]) by {
            lemma_ident_run(s, q, k);
        }
    } else if is_digit(s[q]) {
        lemma_digits_end(s, q);
        let a = digits_end(s, q);
        if has_fraction_at(s, a) {
            lemma_digits_end(s, a + 1);
            assert forall|k: int| q <= k < scan_end(s, q) implies !is_ws(#[trigger] s[k]) by {
                if k < a {
                    lemma_digits_run(s, q, k);
                } else if k > a {
                    lemma_digits_run(s, a + 1, k);
                }
            }
        } else {
            assert forall|k: int| q <= k < scan_end(s, q) implies !is_ws(#[trigger] s[k]) by {
                lemma_digits_run(s, q, k);
            }
        }
    }
}

/// For a source with no malformed token and no string literal, the lexemes
/// written one after the other are the source with its whitespace removed.
pub proof fn lemma_lexemes_rebuild_source(s: Seq<char>)
    requires
        no_strings(lex_spec(s)),
    ensures
        concat_lexemes(lex_spec(s)) == strip_ws(s, 0),
{
    lemma_rebuild_from(s, 0);
}

proof fn lemma_rebuild_from(s: Seq<char>, p: int)
    requires
        0 <= p <= s.len(),
        no_strings(lex_from(s, p)),
    ensures
        concat_lexemes(lex_from(s, p)) == strip_ws(s, p),
    decreases s.len() - p,
{
    lemma_skip_ws(s, p);
    lemma_strip_skip(s, p);
    let q = skip_ws(s, p);
    let ts = lex_from(s, p);
    if q < s.len() {
        lemma_scan_end(s, q);
        let e = scan_end(s, q);
        let rest = lex_from(s, e);
        assert(ts == seq![token_at(s, q)] + rest);
        assert(ts.drop_first() =~= rest);
        assert(no_strings(rest)) by {
            assert forall|i: int| 0 <= i < rest.len() implies #[trigger] rest[i].0
                != TokenType::Unknown && rest[i].0 != TokenType::StringLiteral by {
                assert(rest[i] == ts[i + 1]);
            }
        }
        assert(ts[0].0 != TokenType::Unknown && ts[0].0 != TokenType::StringLiteral);
        lemma_rebuild_from(s, e);
        lemma_token_has_no_ws(s, q);
        lemma_strip_run(s, q, e);
    } else {
        assert(ts == seq![eof_of(s)]);
        assert(ts.drop_first() =~= Seq::<TokenModel>::empty());
        assert(concat_lexemes(Seq::<TokenModel>::empty()) =~= Seq::<char>::empty());
        assert(ts[0].1 =~= Seq::<char>::empty());
        assert(concat_lexemes(ts) =~= Seq::<char>::empty());
    }
}

/// Once scanning has reached the end of input, the next token is `EOF` and
/// scanning stays where it is, so every later token is `EOF` as well.
pub proof fn lemma_eof_is_terminal(s: Seq<char>)
    ensures
        skip_ws(s, s.len() as int) == s.len(),
        lex_from(s, s.len() as int) == seq![eof_of(s)],
{
}

/// Writing out the lexemes of a source, each followed by a space, and lexing
/// that text gives the same token kinds and texts, for a source with no
/// malformed token.
pub proof fn lemma_lex_round_trip(s: Seq<char>)
    requires
        plain_tokens(lex_spec(s)),
    ensures
        kinds_and_texts(lex_spec(join_lexemes(lex_spec(s)))) == kinds_and_texts(lex_spec(s)),
{
    lemma_round_trip_from(s, 0);
}

} // verus!
