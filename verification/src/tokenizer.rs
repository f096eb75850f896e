//! The scanner itself: a cursor over the input text, the specification of
//! what one scan step and a whole scan produce, and the proofs of the
//! scanner's global laws.

use vstd::prelude::*;
use vstd::string::*;

use crate::token::{Token, TokenKind, TokenModel};

verus! {

// ---------------------------------------------------------------------------
// Character classes
// ---------------------------------------------------------------------------

/// The whitespace characters the scanner skips between lexemes: exactly the
/// characters with the Unicode `White_Space` property.
pub open spec fn is_whitespace_char(c: char) -> bool {
    ||| c == ' '
    ||| c == '\t'
    ||| c == '\n'
    ||| c == '\u{0b}'
    ||| c == '\u{0c}'
    ||| c == '\r'
    ||| c == '\u{85}'
    ||| c == '\u{a0}'
    ||| c == '\u{1680}'
    ||| ('\u{2000}' <= c && c <= '\u{200a}')
    ||| c == '\u{2028}'
    ||| c == '\u{2029}'
    ||| c == '\u{202f}'
    ||| c == '\u{205f}'
    ||| c == '\u{3000}'
}

/// ASCII decimal digits, the characters a `Number` token is made of.
pub open spec fn is_digit_char(c: char) -> bool {
    '0' <= c && c <= '9'
}

/// ASCII letters of either case, the characters an `Ident` token is made of.
pub open spec fn is_letter_char(c: char) -> bool {
    ('A' <= c && c <= 'Z') || ('a' <= c && c <= 'z')
}

fn char_is_whitespace(c: char) -> (b: bool)
    ensures
        b == is_whitespace_char(c),
{
    c == ' ' || c == '\t' || c == '\n' || c == '\u{0b}' || c == '\u{0c}' || c == '\r'
        || c == '\u{85}' || c == '\u{a0}' || c == '\u{1680}'
        || ('\u{2000}' <= c && c <= '\u{200a}')
        || c == '\u{2028}' || c == '\u{2029}' || c == '\u{202f}' || c == '\u{205f}'
        || c == '\u{3000}'
}

fn char_is_digit(c: char) -> (b: bool)
    ensures
        b == is_digit_char(c),
{
    '0' <= c && c <= '9'
}

fn char_is_letter(c: char) -> (b: bool)
    ensures
        b == is_letter_char(c),
{
    ('A' <= c && c <= 'Z') || ('a' <= c && c <= 'z')
}

// ---------------------------------------------------------------------------
// The scan, as a mathematical function of the input
// ---------------------------------------------------------------------------

/// First offset at or after `i` that does not hold whitespace.
pub open spec fn skip_ws_from(s: Seq<char>, i: int) -> int
    decreases s.len() - i when 0 <= i <= s.len()
{
    if i < s.len() && is_whitespace_char(s[i]) {
        skip_ws_from(s, i + 1)
    } else {
        i
    }
}

/// End of the maximal run of ASCII digits that starts at `i`.
pub open spec fn digit_run_end(s: Seq<char>, i: int) -> int
    decreases s.len() - i when 0 <= i <= s.len()
{
    if i < s.len() && is_digit_char(s[i]) {
        digit_run_end(s, i + 1)
    } else {
        i
    }
}

/// End of the maximal run of ASCII letters that starts at `i`.
pub open spec fn letter_run_end(s: Seq<char>, i: int) -> int
    decreases s.len() - i when 0 <= i <= s.len()
{
    if i < s.len() && is_letter_char(s[i]) {
        letter_run_end(s, i + 1)
    } else {
        i
    }
}

/// Classification of the lexeme that starts at offset `i` (which must hold a
/// character): its kind and the offset one past its last character.
pub open spec fn token_at(s: Seq<char>, i: int) -> (TokenKind, int)
    recommends
        0 <= i < s.len(),
{
    let c = s[i];
    if c == ',' {
        (TokenKind::Comma, i + 1)
    } else if c == ':' {
        (TokenKind::Colon, i + 1)
    } else if c == ';' {
        (TokenKind::Semicolon, i + 1)
    } else if c == '#' {
        (TokenKind::Pound, i + 1)
    } else if c == '$' {
        (TokenKind::Dollar, i + 1)
    } else if c == '@' {
        (TokenKind::At, i + 1)
    } else if c == '_' {
        (TokenKind::Underscore, i + 1)
    } else if c == '(' {
        (TokenKind::Lparen, i + 1)
    } else if c == ')' {
        (TokenKind::Rparen, i + 1)
    } else if c == '[' {
        (TokenKind::Lsquare, i + 1)
    } else if c == ']' {
        (TokenKind::Rsquare, i + 1)
    } else if c == '{' {
        (TokenKind::Lcurly, i + 1)
    } else if c == '}' {
        (TokenKind::Rcurly, i + 1)
    } else if c == '.' {
        (TokenKind::Dot, i + 1)
    } else if c == '=' {
        if i + 1 < s.len() && s[i + 1] == '>' {
            (TokenKind::Implies, i + 2)
        } else {
            (TokenKind::Eq, i + 1)
        }
    } else if c == '!' {
        if i + 1 < s.len() && s[i + 1] == '=' {
            (TokenKind::Neq, i + 2)
        } else {
            (TokenKind::Bang, i + 1)
        }
    } else if c == '<' {
        if i + 1 < s.len() && s[i + 1] == '=' {
            (TokenKind::Le, i + 2)
        } else if i + 1 < s.len() && s[i + 1] == '-' {
            (TokenKind::Gets, i + 2)
        } else {
            (TokenKind::Lt, i + 1)
        }
    } else if c == '>' {
        if i + 1 < s.len() && s[i + 1] == '=' {
            (TokenKind::Ge, i + 2)
        } else {
            (TokenKind::Gt, i + 1)
        }
    } else if c == '+' {
        (TokenKind::Add, i + 1)
    } else if c == '-' {
        (TokenKind::Sub, i + 1)
    } else if c == '*' {
        (TokenKind::Mul, i + 1)
    } else if c == '/' {
        (TokenKind::Div, i + 1)
    } else if is_digit_char(c) {
        (TokenKind::Number, digit_run_end(s, i + 1))
    } else if is_letter_char(c) {
        (TokenKind::Ident, letter_run_end(s, i + 1))
    } else {
        (TokenKind::Unknown, i + 1)
    }
}

/// The token one scan step produces when the cursor stands at offset `i`:
/// whitespace is skipped first, then either the input is exhausted and the
/// step yields the `Eof` sentinel, or the lexeme at the first non-whitespace
/// offset is classified.
pub open spec fn next_token_model(s: Seq<char>, i: int) -> TokenModel
    recommends
        0 <= i <= s.len(),
{
    let j = skip_ws_from(s, i);
    if j == s.len() {
        TokenModel { kind: TokenKind::Eof, raw: Seq::empty(), start: j, end: j }
    } else {
        let ke = token_at(s, j);
        TokenModel { kind: ke.0, raw: s.subrange(j, ke.1), start: j, end: ke.1 }
    }
}

/// The whole remaining scan from offset `i`: every token up to, and not
/// including, the `Eof` sentinel.
pub open spec fn token_models_from(s: Seq<char>, i: int) -> Seq<TokenModel>
    decreases s.len() - i when 0 <= i <= s.len() via token_models_from_decreases
{
    let j = skip_ws_from(s, i);
    if j == s.len() {
        Seq::empty()
    } else {
        seq![next_token_model(s, i)] + token_models_from(s, token_at(s, j).1)
    }
}

#[via_fn]
proof fn token_models_from_decreases(s: Seq<char>, i: int) {
    lemma_skip_ws_from_range(s, i);
    let j = skip_ws_from(s, i);
    if j < s.len() {
        lemma_token_at_range(s, j);
    }
}

/// The scan of a whole input, from its first character.
pub open spec fn tokens_of(s: Seq<char>) -> Seq<TokenModel> {
    token_models_from(s, 0)
}

/// The models of a sequence of produced tokens, element by element.
pub open spec fn models_of(ts: Seq<Token>) -> Seq<TokenModel> {
    ts.map_values(|t: Token| t@)
}

// ---------------------------------------------------------------------------
// Range facts about the spec functions
// ---------------------------------------------------------------------------

/// Skipping whitespace never moves the cursor backwards nor past the end,
/// skips only whitespace, and stops at the first non-whitespace character.
pub proof fn lemma_skip_ws_from_range(s: Seq<char>, i: int)
    requires
        0 <= i <= s.len(),
    ensures
        i <= skip_ws_from(s, i) <= s.len(),
        forall|p: int| i <= p < skip_ws_from(s, i) ==> is_whitespace_char(#[trigger] s[p]),
        skip_ws_from(s, i) < s.len() ==> !is_whitespace_char(s[skip_ws_from(s, i)]),
    decreases s.len() - i,
{
    if i < s.len() && is_whitespace_char(s[i]) {
        lemma_skip_ws_from_range(s, i + 1);
    }
}

/// A digit run covers only digits and ends right before a non-digit.
pub proof fn lemma_digit_run_range(s: Seq<char>, i: int)
    requires
        0 <= i <= s.len(),
    ensures
        i <= digit_run_end(s, i) <= s.len(),
        forall|p: int| i <= p < digit_run_end(s, i) ==> is_digit_char(#[trigger] s[p]),
        digit_run_end(s, i) < s.len() ==> !is_digit_char(s[digit_run_end(s, i)]),
    decreases s.len() - i,
{
    if i < s.len() && is_digit_char(s[i]) {
        lemma_digit_run_range(s, i + 1);
    }
}

/// A letter run covers only letters and ends right before a non-letter.
pub proof fn lemma_letter_run_range(s: Seq<char>, i: int)
    requires
        0 <= i <= s.len(),
    ensures
        i <= letter_run_end(s, i) <= s.len(),
        forall|p: int| i <= p < letter_run_end(s, i) ==> is_letter_char(#[trigger] s[p]),
        letter_run_end(s, i) < s.len() ==> !is_letter_char(s[letter_run_end(s, i)]),
    decreases s.len() - i,
{
    if i < s.len() && is_letter_char(s[i]) {
        lemma_letter_run_range(s, i + 1);
    }
}

/// Every classified lexeme consumes at least one character and stays inside
/// the input, and classification never yields a reserved or sentinel kind.
pub proof fn lemma_token_at_range(s: Seq<char>, i: int)
    requires
        0 <= i < s.len(),
    ensures
        i < token_at(s, i).1 <= s.len(),
        token_at(s, i).0 != TokenKind::Eof,
        token_at(s, i).0 != TokenKind::Error,
        token_at(s, i).0 != TokenKind::To,
        token_at(s, i).0 != TokenKind::Iff,
{
    if is_digit_char(s[i]) {
        lemma_digit_run_range(s, i + 1);
    }
    if is_letter_char(s[i]) {
        lemma_letter_run_range(s, i + 1);
    }
}

// ---------------------------------------------------------------------------
// Laws of the scan
// ---------------------------------------------------------------------------

/// What holds of every token of a scan that began at offset `lo`: it spans a
/// non-empty interval inside the input, `raw` is exactly the spanned text,
/// and its kind is neither a sentinel (`Eof`, `Error`) nor a reserved
/// variant (`To`, `Iff`).
pub open spec fn token_wf(s: Seq<char>, lo: int, t: TokenModel) -> bool {
    &&& lo <= t.start < t.end <= s.len()
    &&& t.raw == s.subrange(t.start, t.end)
    &&& t.kind != TokenKind::Eof
    &&& t.kind != TokenKind::Error
    &&& t.kind != TokenKind::To
    &&& t.kind != TokenKind::Iff
}

/// Every token of a scan is well formed, and the spanned intervals are
/// ordered and disjoint: a token ends no later than any later token starts.
/// Offsets are therefore monotonically non-decreasing and never overlap.
pub proof fn lemma_tokens_wf(s: Seq<char>, i: int)
    requires
        0 <= i <= s.len(),
    ensures
        forall|k: int| 0 <= k < token_models_from(s, i).len() ==> token_wf(
            s,
            i,
            #[trigger] token_models_from(s, i)[k],
        ),
        forall|k1: int, k2: int|
            #![trigger token_models_from(s, i)[k1], token_models_from(s, i)[k2]]
            0 <= k1 < k2 < token_models_from(s, i).len() ==> token_models_from(s, i)[k1].end
                <= token_models_from(s, i)[k2].start,
    decreases s.len() - i,
{
    let ts = token_models_from(s, i);
    lemma_skip_ws_from_range(s, i);
    let j = skip_ws_from(s, i);
    if j < s.len() {
        lemma_token_at_range(s, j);
        let e = token_at(s, j).1;
        let t0 = next_token_model(s, i);
        let rest = token_models_from(s, e);
        lemma_tokens_wf(s, e);
        assert(ts == seq![t0] + rest);
        assert forall|k: int| 0 <= k < ts.len() implies token_wf(s, i, #[trigger] ts[k]) by {
            if k == 0 {
                assert(ts[k] == t0);
            } else {
                assert(ts[k] == rest[k - 1]);
                assert(token_wf(s, e, rest[k - 1]));
            }
        }
        assert forall|k1: int, k2: int|
            #![trigger ts[k1], ts[k2]]
            0 <= k1 < k2 < ts.len() implies ts[k1].end <= ts[k2].start by {
            assert(ts[k2] == rest[k2 - 1]);
            assert(token_wf(s, e, rest[k2 - 1]));
            if k1 > 0 {
                assert(ts[k1] == rest[k1 - 1]);
            }
        }
    }
}

/// The input text reassembled from a scan: the text before the first token,
/// then its `raw`, then whatever the rest of the scan reassembles from the
/// end of that token on; with no tokens left, the text up to the end of the
/// input. For the scan itself this interleaves each token's `raw`, in
/// order, with exactly the whitespace runs that were skipped between them.
pub open spec fn stitched(s: Seq<char>, ts: Seq<TokenModel>, i: int) -> Seq<char>
    decreases ts.len(),
{
    if ts.len() == 0 {
        s.subrange(i, s.len() as int)
    } else {
        s.subrange(i, ts[0].start) + ts[0].raw + stitched(s, ts.drop_first(), ts[0].end)
    }
}

/// Reassembling the scan that starts at offset `i` yields the input from
/// `i` on: no character is lost and none is invented.
pub proof fn lemma_reconstruction(s: Seq<char>, i: int)
    requires
        0 <= i <= s.len(),
    ensures
        stitched(s, token_models_from(s, i), i) == s.subrange(i, s.len() as int),
    decreases s.len() - i,
{
    let ts = token_models_from(s, i);
    lemma_skip_ws_from_range(s, i);
    let j = skip_ws_from(s, i);
    if j < s.len() {
        lemma_token_at_range(s, j);
        let e = token_at(s, j).1;
        let t0 = next_token_model(s, i);
        let rest = token_models_from(s, e);
        lemma_reconstruction(s, e);
        assert(ts == seq![t0] + rest);
        assert(ts.drop_first() =~= rest);
        assert(s.subrange(i, j) + s.subrange(j, e) + s.subrange(e, s.len() as int) =~= s.subrange(
            i,
            s.len() as int,
        ));
    }
}

/// Concatenating each token's `raw` in order, interspersed with the exact
/// whitespace runs removed around them, reconstructs the whole input.
pub proof fn lemma_scan_reconstructs_input(s: Seq<char>)
    ensures
        stitched(s, tokens_of(s), 0) == s,
{
    lemma_reconstruction(s, 0);
    assert(s.subrange(0, s.len() as int) =~= s);
}

/// The pieces of input that the tokens of `ts` leave uncovered — before the
/// first token, between any two consecutive tokens, and after the last one
/// (or the whole remaining input when there is no token) — hold whitespace
/// and nothing else.
pub open spec fn gaps_all_whitespace(s: Seq<char>, i: int, ts: Seq<TokenModel>) -> bool {
    &&& ts.len() == 0 ==> (forall|p: int|
        i <= p < s.len() ==> is_whitespace_char(#[trigger] s[p]))
    &&& ts.len() > 0 ==> (forall|p: int|
        i <= p < ts[0].start ==> is_whitespace_char(#[trigger] s[p]))
    &&& forall|k: int, p: int|
        #![trigger ts[k], s[p]]
        0 <= k < ts.len() - 1 && ts[k].end <= p < ts[k + 1].start ==> is_whitespace_char(s[p])
    &&& ts.len() > 0 ==> (forall|p: int|
        ts[ts.len() - 1].end <= p < s.len() ==> is_whitespace_char(#[trigger] s[p]))
}

/// A scan skips whitespace and nothing else: every gap it leaves between
/// its tokens is a whitespace run.
#[verifier::rlimit(30)]
pub proof fn lemma_gaps_are_whitespace(s: Seq<char>, i: int)
    requires
        0 <= i <= s.len(),
    ensures
        gaps_all_whitespace(s, i, token_models_from(s, i)),
    decreases s.len() - i,
{
    let ts = token_models_from(s, i);
    lemma_skip_ws_from_range(s, i);
    let j = skip_ws_from(s, i);
    if j < s.len() {
        lemma_token_at_range(s, j);
        let e = token_at(s, j).1;
        let t0 = next_token_model(s, i);
        let rest = token_models_from(s, e);
        lemma_gaps_are_whitespace(s, e);
        lemma_skip_ws_from_range(s, e);
        assert(ts == seq![t0] + rest);
        assert forall|k: int, p: int|
            #![trigger ts[k], s[p]]
            0 <= k < ts.len() - 1 && ts[k].end <= p < ts[k + 1].start implies is_whitespace_char(
            s[p],
        ) by {
            assert(ts[k + 1] == rest[k]);
            if k > 0 {
                assert(ts[k] == rest[k - 1]);
            }
        }
        if rest.len() > 0 {
            assert(ts[ts.len() - 1] == rest[rest.len() - 1]);
        }
    }
}

/// Whether offset `p` falls inside the span of some token of `ts`.
pub open spec fn covered_by(ts: Seq<TokenModel>, p: int) -> bool {
    exists|k: int| 0 <= k < ts.len() && (#[trigger] ts[k]).start <= p < ts[k].end
}

/// Every character of the input is accounted for: a character the scan
/// does not place inside any token's span is whitespace.
pub proof fn lemma_uncovered_is_whitespace(s: Seq<char>, i: int)
    requires
        0 <= i <= s.len(),
    ensures
        forall|p: int|
            i <= p < s.len() && !covered_by(token_models_from(s, i), p) ==> is_whitespace_char(
                #[trigger] s[p],
            ),
    decreases s.len() - i,
{
    let ts = token_models_from(s, i);
    lemma_skip_ws_from_range(s, i);
    let j = skip_ws_from(s, i);
    if j < s.len() {
        lemma_token_at_range(s, j);
        let e = token_at(s, j).1;
        let t0 = next_token_model(s, i);
        let rest = token_models_from(s, e);
        lemma_uncovered_is_whitespace(s, e);
        assert(ts == seq![t0] + rest);
        assert forall|p: int|
            i <= p < s.len() && !covered_by(ts, p) implies is_whitespace_char(s[p]) by {
            if j <= p < e {
                assert(ts[0].start <= p < ts[0].end);
                assert(covered_by(ts, p));
            } else if e <= p {
                if covered_by(rest, p) {
                    let k = choose|k: int|
                        0 <= k < rest.len() && (#[trigger] rest[k]).start <= p < rest[k].end;
                    assert(ts[k + 1] == rest[k]);
                    assert(covered_by(ts, p));
                }
            }
        }
    }
}

/// All characters in `[lo, hi)` are ASCII digits.
pub open spec fn all_digits(s: Seq<char>, lo: int, hi: int) -> bool {
    forall|p: int| lo <= p < hi ==> is_digit_char(#[trigger] s[p])
}

/// All characters in `[lo, hi)` are ASCII letters.
pub open spec fn all_letters(s: Seq<char>, lo: int, hi: int) -> bool {
    forall|p: int| lo <= p < hi ==> is_letter_char(#[trigger] s[p])
}

/// Maximal munch: a `Number` token spans only digits and is followed by a
/// non-digit (or the end of input), and an `Ident` token spans only letters
/// and is followed by a non-letter (or the end of input). A digit or letter
/// run is therefore never split across two tokens.
pub proof fn lemma_maximal_munch(s: Seq<char>, i: int)
    requires
        0 <= i <= s.len(),
    ensures
        forall|k: int|
            0 <= k < token_models_from(s, i).len() && (#[trigger] token_models_from(s, i)[k]).kind
                == TokenKind::Number ==> all_digits(
                s,
                token_models_from(s, i)[k].start,
                token_models_from(s, i)[k].end,
            ) && (token_models_from(s, i)[k].end == s.len() || !is_digit_char(
                s[token_models_from(s, i)[k].end],
            )),
        forall|k: int|
            0 <= k < token_models_from(s, i).len() && (#[trigger] token_models_from(s, i)[k]).kind
                == TokenKind::Ident ==> all_letters(
                s,
                token_models_from(s, i)[k].start,
                token_models_from(s, i)[k].end,
            ) && (token_models_from(s, i)[k].end == s.len() || !is_letter_char(
                s[token_models_from(s, i)[k].end],
            )),
    decreases s.len() - i,
{
    let ts = token_models_from(s, i);
    lemma_skip_ws_from_range(s, i);
    let j = skip_ws_from(s, i);
    if j < s.len() {
        lemma_token_at_range(s, j);
        let e = token_at(s, j).1;
        let t0 = next_token_model(s, i);
        let rest = token_models_from(s, e);
        lemma_maximal_munch(s, e);
        assert(ts == seq![t0] + rest);
        if t0.kind == TokenKind::Number {
            lemma_digit_run_range(s, j + 1);
            assert(is_digit_char(s[j]));
            assert(all_digits(s, t0.start, t0.end));
        }
        if t0.kind == TokenKind::Ident {
            lemma_letter_run_range(s, j + 1);
            assert(is_letter_char(s[j]));
            assert(all_letters(s, t0.start, t0.end));
        }
        assert forall|k: int| 1 <= k < ts.len() implies ts[k] == rest[k - 1] by {}
    }
}

// ---------------------------------------------------------------------------
// The scanner
// ---------------------------------------------------------------------------

/// Mathematical image of a [`Tokenizer`]: the input as a sequence of
/// characters, the first offset of the lexeme under construction, and the
/// cursor.
pub ghost struct TokenizerModel {
    pub input: Seq<char>,
    pub start: int,
    pub pos: int,
}

/// A cursor-driven scanner over one complete input text.
///
/// `start` marks the first character of the lexeme currently being read and
/// `pos` the first character not yet consumed; both are character offsets.
/// `len` caches the character length of `input`. The cursor only ever moves
/// forward, and `pos == input.len()` is the terminal, exhausted state.
pub struct Tokenizer {
    input: String,
    start: usize,
    pos: usize,
    len: usize,
}

impl View for Tokenizer {
    type V = TokenizerModel;

    closed spec fn view(&self) -> TokenizerModel {
        TokenizerModel { input: self.input@, start: self.start as int, pos: self.pos as int }
    }
}

impl Tokenizer {
    #[verifier::type_invariant]
    spec fn wf(&self) -> bool {
        self.len == self.input@.len() && self.start <= self.pos <= self.len
    }

    /// A scanner positioned at offset 0 of `src`, holding its own copy of
    /// the text.
    pub fn new(src: &str) -> (t: Tokenizer)
        ensures
            t@.input == src@,
            t@.start == 0,
            t@.pos == 0,
    {
        let len = src.unicode_len();
        Tokenizer { input: String::from_str(src), start: 0, pos: 0, len }
    }

    /// The next unconsumed character, if any, without consuming it.
    pub fn peek(&self) -> (r: Option<char>)
        ensures
            self@.pos < self@.input.len() ==> r == Some(self@.input[self@.pos]),
            self@.pos >= self@.input.len() ==> r is None,
    {
        proof {
            use_type_invariant(self);
        }
        if self.pos < self.len {
            Some(self.input.as_str().get_char(self.pos))
        } else {
            None
        }
    }

    /// Consume and return the next character; once the input is exhausted,
    /// return `None` and leave the scanner unchanged.
    pub fn advance(&mut self) -> (r: Option<char>)
        ensures
            final(self)@.input == old(self)@.input,
            final(self)@.start == old(self)@.start,
            old(self)@.pos < old(self)@.input.len() ==> final(self)@.pos == old(self)@.pos + 1
                && r == Some(old(self)@.input[old(self)@.pos]),
            old(self)@.pos >= old(self)@.input.len() ==> final(self)@.pos == old(self)@.pos
                && r is None,
    {
        proof {
            use_type_invariant(&*self);
        }
        if self.pos < self.len {
            let c = self.input.as_str().get_char(self.pos);
            self.pos = self.pos + 1;
            Some(c)
        } else {
            None
        }
    }

    /// Skip the whitespace run under the cursor and restart the current
    /// lexeme there: afterwards both `start` and `pos` stand on the first
    /// non-whitespace character at or after the old cursor.
    fn skip_whitespace(&mut self)
        ensures
            final(self)@.input == old(self)@.input,
            final(self)@.pos == skip_ws_from(old(self)@.input, old(self)@.pos),
            final(self)@.start == final(self)@.pos,
    {
        proof {
            use_type_invariant(&*self);
        }
        let ghost s = self.input@;
        let ghost p0 = self.pos as int;
        self.start = self.pos;
        loop
            invariant
                self.len == s.len(),
                self@.input == s,
                self.start == self.pos,
                p0 <= self.pos as int <= s.len(),
                skip_ws_from(s, self.pos as int) == skip_ws_from(s, p0),
            ensures
                self.len == s.len(),
                self@.input == s,
                self.start == self.pos,
                self.pos as int == skip_ws_from(s, p0),
            decreases s.len() - self.pos as int,
        {
            if self.pos >= self.len {
                break;
            }
            let c = self.input.as_str().get_char(self.pos);
            if !char_is_whitespace(c) {
                break;
            }
            self.pos = self.pos + 1;
            self.start = self.pos;
        }
    }

    /// Drain the remaining input into the ordered sequence of its tokens,
    /// excluding the `Eof` sentinel that ends the scan. Afterwards the
    /// scanner is exhausted, so a second call returns the empty sequence.
    pub fn tokenize(&mut self) -> (tokens: Vec<Token>)
        ensures
            final(self)@.input == old(self)@.input,
            models_of(tokens@) == token_models_from(old(self)@.input, old(self)@.pos),
            final(self)@.pos == old(self)@.input.len(),
            final(self)@.start == final(self)@.pos,
    {
        proof {
            use_type_invariant(&*self);
        }
        let ghost s = self.input@;
        let ghost p0 = self.pos as int;
        let mut tokens: Vec<Token> = Vec::new();
        proof {
            assert(models_of(tokens@) + token_models_from(s, p0) =~= token_models_from(s, p0));
        }
        loop
            invariant
                self@.input == s,
                0 <= self@.pos <= s.len(),
                token_models_from(s, p0) == models_of(tokens@) + token_models_from(
                    s,
                    self@.pos,
                ),
            ensures
                self@.input == s,
                self@.pos == s.len(),
                self@.start == self@.pos,
                token_models_from(s, p0) == models_of(tokens@),
            decreases s.len() - self@.pos,
        {
            let ghost p = self.pos as int;
            let t = self.next_token();
            proof {
                use_type_invariant(&*self);
            }
            if t.kind == TokenKind::Eof {
                proof {
                    assert(models_of(tokens@) + token_models_from(s, p) =~= models_of(
                        tokens@,
                    ));
                }
                break;
            }
            proof {
                let m = models_of(tokens@);
                assert(models_of(tokens@.push(t)) =~= m.push(t@));
                assert(m + (seq![t@] + token_models_from(s, t@.end)) =~= m.push(t@)
                    + token_models_from(s, t@.end));
            }
            tokens.push(t);
            self.start = self.pos;
        }
        tokens
    }

    /// Consume the maximal run of ASCII digits under the cursor.
    fn skip_digit_run(&mut self)
        ensures
            final(self)@.input == old(self)@.input,
            final(self)@.start == old(self)@.start,
            final(self)@.pos == digit_run_end(old(self)@.input, old(self)@.pos),
    {
        proof {
            use_type_invariant(&*self);
        }
        let ghost s = self.input@;
        let ghost p0 = self.pos as int;
        loop
            invariant
                self.len == s.len(),
                self@.input == s,
                self@.start == old(self)@.start,
                p0 <= self.pos as int <= s.len(),
                digit_run_end(s, self.pos as int) == digit_run_end(s, p0),
            ensures
                self@.input == s,
                self@.start == old(self)@.start,
                self.pos as int == digit_run_end(s, p0),
            decreases s.len() - self.pos as int,
        {
            proof {
                use_type_invariant(&*self);
            }
            if self.pos >= self.len {
                break;
            }
            let c = self.input.as_str().get_char(self.pos);
            if !char_is_digit(c) {
                break;
            }
            self.pos = self.pos + 1;
        }
    }

    /// Produce the next token: skip whitespace, classify the maximal lexeme
    /// under the cursor, and move the cursor past it. Once the input is
    /// exhausted this returns the `Eof` sentinel, with an empty `raw` and
    /// `start == end`, again and again, without moving the cursor.
    pub fn next_token(&mut self) -> (t: Token)
        ensures
            final(self)@.input == old(self)@.input,
            t@ == next_token_model(old(self)@.input, old(self)@.pos),
            final(self)@.start == t@.start,
            final(self)@.pos == t@.end,
            old(self)@.pos <= t@.start <= t@.end <= old(self)@.input.len(),
            t@.raw == old(self)@.input.subrange(t@.start, t@.end),
            t@.kind == TokenKind::Eof <==> skip_ws_from(old(self)@.input, old(self)@.pos)
                == old(self)@.input.len(),
            t@.kind != TokenKind::Eof ==> t@.start < t@.end,
            old(self)@.pos == old(self)@.input.len() ==> t@.kind == TokenKind::Eof
                && t@.start == old(self)@.pos && t@.end == old(self)@.pos,
    {
        proof {
            use_type_invariant(&*self);
        }
        let ghost s = self.input@;
        let ghost p0 = self.pos as int;
        self.skip_whitespace();
        proof {
            use_type_invariant(&*self);
            lemma_skip_ws_from_range(s, p0);
        }
        let ghost j = self.pos as int;
        if self.pos == self.len {
            proof {
                assert(Seq::<char>::empty() =~= s.subrange(j, j));
            }
            return Token { kind: TokenKind::Eof, raw: String::new(), start: self.start, end: self.pos };
        }
        proof {
            lemma_token_at_range(s, j);
        }
        let c = self.input.as_str().get_char(self.pos);
        self.pos = self.pos + 1;
        let kind = match c {
            ',' => TokenKind::Comma,
            ':' => TokenKind::Colon,
            ';' => TokenKind::Semicolon,
            '#' => TokenKind::Pound,
            '$' => TokenKind::Dollar,
            '@' => TokenKind::At,
            '_' => TokenKind::Underscore,
            '(' => TokenKind::Lparen,
            ')' => TokenKind::Rparen,
            '[' => TokenKind::Lsquare,
            ']' => TokenKind::Rsquare,
            '{' => TokenKind::Lcurly,
            '}' => TokenKind::Rcurly,
            '.' => TokenKind::Dot,
            '=' => {
                if self.pos < self.len && self.input.as_str().get_char(self.pos) == '>' {
                    self.pos = self.pos + 1;
                    TokenKind::Implies
                } else {
                    TokenKind::Eq
                }
            },
            '!' => {
                if self.pos < self.len && self.input.as_str().get_char(self.pos) == '=' {
                    self.pos = self.pos + 1;
                    TokenKind::Neq
                } else {
                    TokenKind::Bang
                }
            },
            '<' => {
                if self.pos < self.len && self.input.as_str().get_char(self.pos) == '=' {
                    self.pos = self.pos + 1;
                    TokenKind::Le
                } else if self.pos < self.len && self.input.as_str().get_char(self.pos) == '-' {
                    self.pos = self.pos + 1;
                    TokenKind::Gets
                } else {
                    TokenKind::Lt
                }
            },
            '>' => {
                if self.pos < self.len && self.input.as_str().get_char(self.pos) == '=' {
                    self.pos = self.pos + 1;
                    TokenKind::Ge
                } else {
                    TokenKind::Gt
                }
            },
            '+' => TokenKind::Add,
            '-' => TokenKind::Sub,
            '*' => TokenKind::Mul,
            '/' => TokenKind::Div,
            _ => {
                if char_is_digit(c) {
                    self.skip_digit_run();
                    TokenKind::Number
                } else if char_is_letter(c) {
                    self.skip_letter_run();
                    TokenKind::Ident
                } else {
                    TokenKind::Unknown
                }
            },
        };
        proof {
            assert(kind == token_at(s, j).0);
            assert(self.pos as int == token_at(s, j).1);
        }
        let raw = self.input.as_str().substring_char(self.start, self.pos);
        Token { kind, raw: String::from_str(raw), start: self.start, end: self.pos }
    }

    /// Consume the maximal run of ASCII letters under the cursor.
    fn skip_letter_run(&mut self)
        ensures
            final(self)@.input == old(self)@.input,
            final(self)@.start == old(self)@.start,
            final(self)@.pos == letter_run_end(old(self)@.input, old(self)@.pos),
    {
        proof {
            use_type_invariant(&*self);
        }
        let ghost s = self.input@;
        let ghost p0 = self.pos as int;
        loop
            invariant
                self.len == s.len(),
                self@.input == s,
                self@.start == old(self)@.start,
                p0 <= self.pos as int <= s.len(),
                letter_run_end(s, self.pos as int) == letter_run_end(s, p0),
            ensures
                self@.input == s,
                self@.start == old(self)@.start,
                self.pos as int == letter_run_end(s, p0),
            decreases s.len() - self.pos as int,
        {
            proof {
                use_type_invariant(&*self);
            }
            if self.pos >= self.len {
                break;
            }
            let c = self.input.as_str().get_char(self.pos);
            if !char_is_letter(c) {
                break;
            }
            self.pos = self.pos + 1;
        }
    }
}

} // verus!
