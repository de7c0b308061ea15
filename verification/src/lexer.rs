//! The lexical scanner: consumes a character buffer one maximal run or
//! operator at a time and emits positioned tokens, accumulating diagnostics
//! for malformed numeric literals and unrecognized characters.
//!
//! `next_token` always returns a token and strictly advances the cursor
//! except at end of input, where it re-emits a zero-length end-of-file
//! token forever; each token's text is exactly the slice of the source it
//! consumed, so concatenating all emitted texts reproduces the source.

use crate::plumbing::Object;
use crate::syntax::keyword_kind;
use crate::syntax::keyword_kind_spec;
use crate::syntax::SyntaxKind;
use crate::syntax::SyntaxToken;
use crate::text::push_char;
use crate::text::string_of_range;
use vstd::prelude::*;
use vstd::string::StrSliceExecFns;
use vstd::string::StringExecFns;

verus! {

/// Whether `c` has the Unicode Alphabetic property; the characters that
/// char::is_alphabetic accepts, a function of the character alone.
pub uninterp spec fn alphabetic_char(c: char) -> bool;

/// Whether `c` has the Unicode White_Space property; the characters that
/// char::is_whitespace accepts, a function of the character alone.
pub uninterp spec fn whitespace_char(c: char) -> bool;

/// Relies on char::is_alphabetic: true exactly when the character has the
/// Unicode Alphabetic property, a function of the character alone.
#[verifier::external_body]
fn char_is_alphabetic(c: char) -> (r: bool)
    ensures
        r == alphabetic_char(c),
{
    c.is_alphabetic()
}

/// Relies on char::is_whitespace: true exactly when the character has the
/// Unicode White_Space property, a function of the character alone.
#[verifier::external_body]
fn char_is_whitespace(c: char) -> (r: bool)
    ensures
        r == whitespace_char(c),
{
    c.is_whitespace()
}

/// A decimal digit.
pub open spec fn digit_char(c: char) -> bool {
    48 <= c as u32 && c as u32 <= 57
}

/// The numeric value of a decimal digit.
pub open spec fn digit_value(c: char) -> int {
    c as u32 - 48
}

/// The value of a run of decimal digits read in base ten.
pub open spec fn digits_value(t: Seq<char>) -> int
    decreases t.len(),
{
    if t.len() == 0 {
        0
    } else {
        digits_value(t.drop_last()) * 10 + digit_value(t.last())
    }
}

/// The end of the maximal run of decimal digits starting at `p`.
pub open spec fn digit_run_end(s: Seq<char>, p: int) -> int
    decreases s.len() - p,
{
    if p < s.len() && digit_char(s[p]) {
        digit_run_end(s, p + 1)
    } else {
        p
    }
}

/// The end of the maximal run of alphabetic characters starting at `p`.
pub open spec fn alpha_run_end(s: Seq<char>, p: int) -> int
    decreases s.len() - p,
{
    if p < s.len() && alphabetic_char(s[p]) {
        alpha_run_end(s, p + 1)
    } else {
        p
    }
}

/// The end of the maximal run of whitespace characters starting at `p`.
pub open spec fn whitespace_run_end(s: Seq<char>, p: int) -> int
    decreases s.len() - p,
{
    if p < s.len() && whitespace_char(s[p]) {
        whitespace_run_end(s, p + 1)
    } else {
        p
    }
}

/// A two-character operator (`!=`, `&&`, `||`, `==`) starts at `p`.
pub open spec fn two_char_operator(s: Seq<char>, p: int) -> bool {
    p + 1 < s.len() && ((s[p] == '!' && s[p + 1] == '=') || (s[p] == '&' && s[p + 1] == '&') || (
    s[p] == '|' && s[p + 1] == '|') || (s[p] == '=' && s[p + 1] == '='))
}

/// The kind of the punctuation token starting at `p`, two-character
/// operators recognized greedily before their one-character prefixes;
/// unmatched punctuation is a bad token.
pub open spec fn punctuation_kind(s: Seq<char>, p: int) -> SyntaxKind {
    let c = s[p];
    if c == '+' {
        SyntaxKind::PlusToken
    } else if c == '-' {
        SyntaxKind::MinusToken
    } else if c == '*' {
        SyntaxKind::StarToken
    } else if c == '/' {
        SyntaxKind::SlashToken
    } else if c == '(' {
        SyntaxKind::OpenParenthesisToken
    } else if c == ')' {
        SyntaxKind::CloseParenthesisToken
    } else if c == '!' {
        if two_char_operator(s, p) {
            SyntaxKind::BangEqualsToken
        } else {
            SyntaxKind::BangToken
        }
    } else if c == '&' {
        if two_char_operator(s, p) {
            SyntaxKind::AmpersandAmpersandToken
        } else {
            SyntaxKind::BadToken
        }
    } else if c == '|' {
        if two_char_operator(s, p) {
            SyntaxKind::PipePipeToken
        } else {
            SyntaxKind::BadToken
        }
    } else if c == '=' {
        if two_char_operator(s, p) {
            SyntaxKind::EqualsEqualsToken
        } else {
            SyntaxKind::EqualsToken
        }
    } else {
        SyntaxKind::BadToken
    }
}

/// Where the token starting at `p` ends: at `p` for end of input, after
/// the maximal digit, alphabetic or whitespace run, after two characters
/// for a greedy two-character operator, and after one character otherwise.
pub open spec fn token_end(s: Seq<char>, p: int) -> int {
    if p >= s.len() {
        p
    } else if digit_char(s[p]) {
        digit_run_end(s, p)
    } else if alphabetic_char(s[p]) {
        alpha_run_end(s, p)
    } else if whitespace_char(s[p]) {
        whitespace_run_end(s, p)
    } else if two_char_operator(s, p) {
        p + 2
    } else {
        p + 1
    }
}

/// The kind of the token starting at `p`, classified by the category of
/// the character there: end of input, then digits, then alphabetic, then
/// whitespace, then punctuation.
pub open spec fn token_kind(s: Seq<char>, p: int) -> SyntaxKind {
    if p >= s.len() {
        SyntaxKind::EndOfFileToken
    } else if digit_char(s[p]) {
        SyntaxKind::NumberToken
    } else if alphabetic_char(s[p]) {
        keyword_kind_spec(s.subrange(p, alpha_run_end(s, p)))
    } else if whitespace_char(s[p]) {
        SyntaxKind::WhitespaceToken
    } else {
        punctuation_kind(s, p)
    }
}

/// The literal value of the token starting at `p`: the parsed integer of a
/// digit run within 64-bit signed range, `0` for one out of range, and
/// `Null` for every other token.
pub open spec fn token_value(s: Seq<char>, p: int) -> Object {
    if p < s.len() && digit_char(s[p]) {
        let t = s.subrange(p, digit_run_end(s, p));
        if digits_value(t) <= i64::MAX {
            Object::Number(digits_value(t) as i64)
        } else {
            Object::Number(0)
        }
    } else {
        Object::Null
    }
}

/// The diagnostic reported for a numeric literal out of 64-bit signed
/// range.
pub open spec fn invalid_number_message(t: Seq<char>) -> Seq<char> {
    "ERROR: invalid i64: "@ + t
}

/// The diagnostic reported for an unrecognized character.
pub open spec fn bad_character_message(c: char) -> Seq<char> {
    "ERROR: bad character input: '"@ + seq![c] + "'"@
}

/// The diagnostics the token starting at `p` adds: one message for an
/// out-of-range digit run, one for an unrecognized character, and none
/// otherwise.
pub open spec fn token_diagnostics(s: Seq<char>, p: int) -> Seq<Seq<char>> {
    if p >= s.len() {
        Seq::empty()
    } else if digit_char(s[p]) {
        let t = s.subrange(p, digit_run_end(s, p));
        if digits_value(t) > i64::MAX {
            seq![invalid_number_message(t)]
        } else {
            Seq::empty()
        }
    } else if alphabetic_char(s[p]) || whitespace_char(s[p]) {
        Seq::empty()
    } else if punctuation_kind(s, p) == SyntaxKind::BadToken {
        seq![bad_character_message(s[p])]
    } else {
        Seq::empty()
    }
}

/// A run value is never negative.
proof fn lemma_digits_value_nonneg(t: Seq<char>)
    requires
        forall|i: int| 0 <= i < t.len() ==> digit_char(#[trigger] t[i]),
    ensures
        digits_value(t) >= 0,
    decreases t.len(),
{
    if t.len() > 0 {
        lemma_digits_value_nonneg(t.drop_last());
    }
}

/// Extending a digit run never shrinks its value.
proof fn lemma_digits_value_prefix(t: Seq<char>, k: int)
    requires
        forall|i: int| 0 <= i < t.len() ==> digit_char(#[trigger] t[i]),
        0 <= k <= t.len(),
    ensures
        digits_value(t.subrange(0, k)) <= digits_value(t),
    decreases t.len(),
{
    if k == t.len() {
        assert(t.subrange(0, k) =~= t);
    } else {
        let shorter = t.drop_last();
        assert(forall|i: int| 0 <= i < shorter.len() ==> digit_char(#[trigger] shorter[i]));
        lemma_digits_value_prefix(shorter, k);
        assert(t.subrange(0, k) =~= shorter.subrange(0, k));
        lemma_digits_value_nonneg(shorter);
    }
}

/// Parses the decimal digits of `input` in `[start, end)` as a 64-bit
/// signed integer; `None` exactly when the run's value is out of range.
fn parse_digits(input: &Vec<char>, start: usize, end: usize) -> (r: Option<i64>)
    requires
        start <= end <= input@.len(),
        forall|i: int| start <= i < end ==> digit_char(#[trigger] input@[i]),
    ensures
        match r {
            Some(v) => v == digits_value(input@.subrange(start as int, end as int)) && digits_value(
                input@.subrange(start as int, end as int),
            ) <= i64::MAX,
            None => digits_value(input@.subrange(start as int, end as int)) > i64::MAX,
        },
{
    let ghost t = input@.subrange(start as int, end as int);
    let mut acc: i64 = 0;
    let mut i: usize = start;
    while i < end
        invariant
            start <= i <= end <= input@.len(),
            t == input@.subrange(start as int, end as int),
            forall|j: int| start <= j < end ==> digit_char(#[trigger] input@[j]),
            0 <= acc,
            acc == digits_value(input@.subrange(start as int, i as int)),
        decreases end - i,
    {
        let c = input[i];
        let d = ((c as u32) - 48) as i64;
        let ghost prefix = input@.subrange(start as int, i as int);
        let ghost extended = input@.subrange(start as int, i + 1 as int);
        proof {
            assert(digit_char(input@[i as int]));
            assert(extended.drop_last() =~= prefix);
            assert(extended.last() == input@[i as int]);
        }
        if acc > 922337203685477580 || (acc == 922337203685477580 && d > 7) {
            proof {
                assert(digits_value(extended) == acc * 10 + d);
                assert(digits_value(extended) > i64::MAX);
                assert(t.subrange(0, i + 1 - start) =~= extended);
                lemma_digits_value_prefix(t, i + 1 - start);
            }
            return None;
        }
        assert(acc * 10 + d <= i64::MAX);
        acc = acc * 10 + d;
        i = i + 1;
    }
    proof {
        assert(input@.subrange(start as int, i as int) =~= t);
    }
    Some(acc)
}

/// True when a decimal digit stands at `i`.
fn digit_at(input: &Vec<char>, i: usize) -> (r: bool)
    ensures
        r == (i < input@.len() && digit_char(input@[i as int])),
{
    if i < input.len() {
        let u = input[i] as u32;
        48 <= u && u <= 57
    } else {
        false
    }
}

/// True when an alphabetic character stands at `i`.
fn alphabetic_at(input: &Vec<char>, i: usize) -> (r: bool)
    ensures
        r == (i < input@.len() && alphabetic_char(input@[i as int])),
{
    if i < input.len() {
        char_is_alphabetic(input[i])
    } else {
        false
    }
}

/// True when a whitespace character stands at `i`.
fn whitespace_at(input: &Vec<char>, i: usize) -> (r: bool)
    ensures
        r == (i < input@.len() && whitespace_char(input@[i as int])),
{
    if i < input.len() {
        char_is_whitespace(input[i])
    } else {
        false
    }
}

/// The character at position `p`, or the NUL sentinel beyond the end.
pub open spec fn char_at(s: Seq<char>, p: int) -> char {
    if 0 <= p < s.len() {
        s[p]
    } else {
        '\0'
    }
}

/// A later cut never lies before an earlier one.
proof fn lemma_cuts_monotonic(cuts: Seq<int>, a: int, b: int)
    requires
        forall|i: int| 0 <= i < cuts.len() - 1 ==> #[trigger] cuts[i] <= cuts[i + 1],
        0 <= a <= b < cuts.len(),
    ensures
        cuts[a] <= cuts[b],
    decreases b - a,
{
    if a < b {
        lemma_cuts_monotonic(cuts, a, b - 1);
    }
}

/// The texts cut at `cuts[k]` and later concatenate to the tail of the
/// source from `cuts[k]`.
proof fn lemma_texts_flatten_suffix(s: Seq<char>, texts: Seq<Seq<char>>, cuts: Seq<int>, k: int)
    requires
        cuts.len() == texts.len() + 1,
        cuts[0] == 0,
        cuts[cuts.len() - 1] == s.len(),
        forall|i: int| 0 <= i < cuts.len() - 1 ==> #[trigger] cuts[i] <= cuts[i + 1],
        forall|i: int|
            0 <= i < texts.len() ==> #[trigger] texts[i] == s.subrange(cuts[i], cuts[i + 1]),
        0 <= k <= texts.len(),
    ensures
        texts.subrange(k, texts.len() as int).flatten() == s.subrange(cuts[k], s.len() as int),
    decreases texts.len() - k,
{
    lemma_cuts_monotonic(cuts, 0, k);
    lemma_cuts_monotonic(cuts, k, cuts.len() - 1);
    if k == texts.len() {
        assert(texts.subrange(k, texts.len() as int) =~= Seq::<Seq<char>>::empty());
        assert(texts.subrange(k, texts.len() as int).flatten() =~= s.subrange(
            cuts[k],
            s.len() as int,
        ));
    } else {
        lemma_cuts_monotonic(cuts, k + 1, cuts.len() - 1);
        lemma_texts_flatten_suffix(s, texts, cuts, k + 1);
        let tail = texts.subrange(k, texts.len() as int);
        assert(tail.drop_first() =~= texts.subrange(k + 1, texts.len() as int));
        assert(tail.flatten() == tail.first() + tail.drop_first().flatten());
        assert(tail.first() == s.subrange(cuts[k], cuts[k + 1]));
        assert(s.subrange(cuts[k], cuts[k + 1]) + s.subrange(cuts[k + 1], s.len() as int) =~= s.subrange(
            cuts[k],
            s.len() as int,
        ));
    }
}

/// Law: scanning is lossless. When token texts are cut contiguously from
/// the source — each text being exactly the slice between consecutive cut
/// positions, the first cut at 0 and the last at the end of input, as
/// `next_token` guarantees — their concatenation in order is exactly the
/// source.
pub proof fn lemma_tokens_lossless(s: Seq<char>, texts: Seq<Seq<char>>, cuts: Seq<int>)
    requires
        cuts.len() == texts.len() + 1,
        cuts[0] == 0,
        cuts[cuts.len() - 1] == s.len(),
        forall|i: int| 0 <= i < cuts.len() - 1 ==> #[trigger] cuts[i] <= cuts[i + 1],
        forall|i: int|
            0 <= i < texts.len() ==> #[trigger] texts[i] == s.subrange(cuts[i], cuts[i + 1]),
    ensures
        texts.flatten() == s,
{
    lemma_texts_flatten_suffix(s, texts, cuts, 0);
    assert(texts.subrange(0, texts.len() as int) =~= texts);
    assert(s.subrange(0, s.len() as int) =~= s);
}

/// The character-by-character scanner: a cursor over an immutable buffer,
/// the bounds and classification of the token being built, and the
/// accumulated diagnostics.
pub struct Lexer {
    input: Vec<char>,
    position: usize,
    start: usize,
    kind: SyntaxKind,
    value: Object,
    pub diagnostics: Vec<String>,
}

impl Lexer {
    /// The characters being scanned.
    pub closed spec fn chars(&self) -> Seq<char> {
        self.input@
    }

    /// The cursor.
    pub closed spec fn pos(&self) -> int {
        self.position as int
    }

    /// The accumulated diagnostic messages, as character sequences.
    pub closed spec fn diags(&self) -> Seq<Seq<char>> {
        self.diagnostics@.map_values(|m: String| m@)
    }

    /// The cursor never leaves the buffer.
    pub open spec fn wf(&self) -> bool {
        0 <= self.pos() <= self.chars().len()
    }

    /// A fresh scanner over the characters of `input`, at position 0 with
    /// no diagnostics.
    pub fn new(input: &str) -> (lexer: Lexer)
        ensures
            lexer.chars() == input@,
            lexer.pos() == 0,
            lexer.diags() == Seq::<Seq<char>>::empty(),
            lexer.wf(),
    {
        let n = input.unicode_len();
        let mut chars: Vec<char> = Vec::new();
        let mut i: usize = 0;
        while i < n
            invariant
                i <= n,
                n == input@.len(),
                chars@ == input@.subrange(0, i as int),
            decreases n - i,
        {
            chars.push(input.get_char(i));
            proof {
                assert(chars@ =~= input@.subrange(0, i + 1 as int));
            }
            i = i + 1;
        }
        proof {
            assert(chars@ =~= input@);
        }
        let lexer = Lexer {
            input: chars,
            position: 0,
            start: 0,
            kind: SyntaxKind::BadToken,
            value: Object::Null,
            diagnostics: Vec::new(),
        };
        proof {
            assert(lexer.diags() =~= Seq::<Seq<char>>::empty());
        }
        lexer
    }

    /// The character `offset` places past the cursor, or the NUL sentinel
    /// beyond the end of input.
    fn peek(&self, offset: usize) -> (c: char)
        requires
            self.wf(),
        ensures
            c == char_at(self.chars(), self.pos() + offset),
    {
        let n = self.input.len();
        if offset < n - self.position {
            self.input[self.position + offset]
        } else {
            '\0'
        }
    }

    /// The character at the cursor.
    fn current(&self) -> (c: char)
        requires
            self.wf(),
        ensures
            c == char_at(self.chars(), self.pos()),
    {
        self.peek(0)
    }

    /// The character just past the cursor.
    fn lookahead(&self) -> (c: char)
        requires
            self.wf(),
        ensures
            c == char_at(self.chars(), self.pos() + 1),
    {
        self.peek(1)
    }

    /// Scans and returns the next token. The cursor strictly advances
    /// except at end of input, where a zero-length end-of-file token is
    /// re-emitted and nothing changes; the token's text is exactly the
    /// slice of the source it consumed.
    pub fn next_token(&mut self) -> (token: SyntaxToken)
        requires
            old(self).wf(),
        ensures
            final(self).wf(),
            final(self).chars() == old(self).chars(),
            final(self).pos() == token_end(old(self).chars(), old(self).pos()),
            old(self).pos() < old(self).chars().len() ==> old(self).pos() < final(self).pos(),
            old(self).pos() == old(self).chars().len() ==> final(self).pos() == old(self).pos(),
            token.kind == token_kind(old(self).chars(), old(self).pos()),
            token.position == old(self).pos(),
            token.text@ == old(self).chars().subrange(
                old(self).pos(),
                token_end(old(self).chars(), old(self).pos()),
            ),
            token.value == token_value(old(self).chars(), old(self).pos()),
            final(self).diags() == old(self).diags() + token_diagnostics(
                old(self).chars(),
                old(self).pos(),
            ),
    {
        let ghost s = old(self).chars();
        let ghost p = old(self).pos();
        let ghost diags0 = old(self).diags();
        let start = self.position;
        self.start = start;
        self.value = Object::Null;
        let n = self.input.len();
        let mut position = start;
        let mut kind = SyntaxKind::BadToken;
        let mut value = Object::Null;
        if position >= n {
            kind = SyntaxKind::EndOfFileToken;
        } else if digit_at(&self.input, position) {
            while digit_at(&self.input, position)
                invariant
                    s == self.input@,
                    n == s.len(),
                    start <= position <= n,
                    forall|i: int| start <= i < position ==> digit_char(#[trigger] s[i]),
                    digit_run_end(s, start as int) == digit_run_end(s, position as int),
                decreases n - position,
            {
                position = position + 1;
            }
            proof {
                assert(digit_run_end(s, position as int) == position);
                assert(digit_run_end(s, start as int) == position);
            }
            match parse_digits(&self.input, start, position) {
                Some(v) => {
                    value = Object::Number(v);
                },
                None => {
                    let text = string_of_range(&self.input, start, position);
                    let mut message = String::from_str("ERROR: invalid i64: ");
                    message.append(text.as_str());
                    proof {
                        assert(message@ == invalid_number_message(
                            s.subrange(start as int, position as int),
                        ));
                        assert((self.diagnostics@.push(message)).map_values(|m: String| m@)
                            =~= diags0 + seq![message@]);
                    }
                    self.diagnostics.push(message);
                    value = Object::Number(0);
                },
            }
            kind = SyntaxKind::NumberToken;
        } else if alphabetic_at(&self.input, position) {
            while alphabetic_at(&self.input, position)
                invariant
                    s == self.input@,
                    n == s.len(),
                    start <= position <= n,
                    alpha_run_end(s, start as int) == alpha_run_end(s, position as int),
                decreases n - position,
            {
                position = position + 1;
            }
            proof {
                assert(alpha_run_end(s, position as int) == position);
            }
            kind = keyword_kind(&self.input, start, position);
        } else if whitespace_at(&self.input, position) {
            while whitespace_at(&self.input, position)
                invariant
                    s == self.input@,
                    n == s.len(),
                    start <= position <= n,
                    whitespace_run_end(s, start as int) == whitespace_run_end(s, position as int),
                decreases n - position,
            {
                position = position + 1;
            }
            proof {
                assert(whitespace_run_end(s, position as int) == position);
            }
            kind = SyntaxKind::WhitespaceToken;
        } else {
            let c = self.current();
            if c == '+' {
                position = position + 1;
                kind = SyntaxKind::PlusToken;
            } else if c == '-' {
                position = position + 1;
                kind = SyntaxKind::MinusToken;
            } else if c == '*' {
                position = position + 1;
                kind = SyntaxKind::StarToken;
            } else if c == '/' {
                position = position + 1;
                kind = SyntaxKind::SlashToken;
            } else if c == '(' {
                position = position + 1;
                kind = SyntaxKind::OpenParenthesisToken;
            } else if c == ')' {
                position = position + 1;
                kind = SyntaxKind::CloseParenthesisToken;
            } else if c == '!' {
                if self.lookahead() == '=' {
                    position = position + 2;
                    kind = SyntaxKind::BangEqualsToken;
                } else {
                    position = position + 1;
                    kind = SyntaxKind::BangToken;
                }
            } else if c == '&' && self.lookahead() == '&' {
                position = position + 2;
                kind = SyntaxKind::AmpersandAmpersandToken;
            } else if c == '|' && self.lookahead() == '|' {
                position = position + 2;
                kind = SyntaxKind::PipePipeToken;
            } else if c == '=' {
                if self.lookahead() == '=' {
                    position = position + 2;
                    kind = SyntaxKind::EqualsEqualsToken;
                } else {
                    position = position + 1;
                    kind = SyntaxKind::EqualsToken;
                }
            } else {
                let mut message = String::from_str("ERROR: bad character input: '");
                push_char(&mut message, c);
                message.append("'");
                proof {
                    assert(message@ =~= bad_character_message(s[p]));
                    assert((self.diagnostics@.push(message)).map_values(|m: String| m@) =~= diags0
                        + seq![message@]);
                }
                self.diagnostics.push(message);
                position = position + 1;
                kind = SyntaxKind::BadToken;
            }
        }
        self.position = position;
        self.kind = kind;
        self.value = value;
        let text = string_of_range(&self.input, start, position);
        proof {
            if p < s.len() && !digit_char(s[p]) && !alphabetic_char(s[p]) && !whitespace_char(
                s[p],
            ) && punctuation_kind(s, p) != SyntaxKind::BadToken {
                assert(self.diags() =~= diags0 + token_diagnostics(s, p));
            }
            if p >= s.len() || (p < s.len() && (alphabetic_char(s[p]) || whitespace_char(s[p]))) {
                assert(self.diags() =~= diags0 + token_diagnostics(s, p));
            }
            if p < s.len() && digit_char(s[p]) && digits_value(
                s.subrange(p, digit_run_end(s, p)),
            ) <= i64::MAX {
                assert(self.diags() =~= diags0 + token_diagnostics(s, p));
            }
        }
        SyntaxToken::new(kind, start, text, value)
    }
}

} // verus!
