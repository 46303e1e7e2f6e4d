//! Lexical analysis: one line of text becomes a sequence of tokens.
//!
//! Blanks separate tokens. An unquoted `|` is a token of its own. A `$` that
//! opens a token introduces a variable reference: `$?`, or `$` and a name of
//! letters, digits and `_` that does not begin with a digit; the reference
//! must be the whole token. Everything else is a word. Within a word a
//! backslash takes the next character literally, single quotes take
//! everything up to the next single quote literally, and double quotes do so
//! up to the next double quote, except that a backslash between them still
//! takes the next character literally. Quotes and escaping backslashes are
//! not part of the word's text. Nothing is looked up here.

use vstd::prelude::*;
use crate::text::{chars_of, text_of};

verus! {

/// One lexical unit of a line.
#[derive(Debug, Clone, PartialEq, Eq)]
pub enum Token {
    /// Literal text: a program name or an argument.
    Word(String),
    /// A reference `$name`, held without the `$`.
    Variable(String),
    /// The operator that joins two stages.
    Pipe,
}

/// Mathematical model of a [`Token`].
pub enum TokenView {
    Word(Seq<char>),
    Variable(Seq<char>),
    Pipe,
}

impl View for Token {
    type V = TokenView;

    open spec fn view(&self) -> TokenView {
        match *self {
            Token::Word(w) => TokenView::Word(w@),
            Token::Variable(n) => TokenView::Variable(n@),
            Token::Pipe => TokenView::Pipe,
        }
    }
}

impl DeepView for Token {
    type V = TokenView;

    open spec fn deep_view(&self) -> TokenView {
        self@
    }
}

/// Why a line could not be split into tokens.
#[derive(Debug, Clone, Copy, PartialEq, Eq, Structural)]
pub enum TokenizationError {
    /// A quote was opened and the line ended before it was closed.
    UnterminatedQuote,
    /// The line ended right after a backslash.
    UnterminatedEscape,
    /// A `$` that opens a token is not followed by a complete name, or the
    /// name is not the end of the token.
    MalformedVariable,
}

/// Where the scan of a word stands with respect to quotes.
#[derive(Debug, Clone, Copy, PartialEq, Eq, Structural)]
pub enum Quoting {
    /// Outside any quote.
    Bare,
    /// After an opening single quote.
    Single,
    /// After an opening double quote.
    Double,
}

/// The text of a word and the index at which the word ends.
pub struct Lexeme {
    pub text: Seq<char>,
    pub end: int,
}

/// Whether `c` separates tokens.
pub open spec fn is_blank(c: char) -> bool {
    c == ' ' || c == '\t' || c == '\n' || c == '\r'
}

/// Whether a variable name may begin with `c`.
pub open spec fn is_name_start(c: char) -> bool {
    ('a' <= c && c <= 'z') || ('A' <= c && c <= 'Z') || c == '_'
}

/// Whether a variable name may go on with `c`.
pub open spec fn is_name_char(c: char) -> bool {
    is_name_start(c) || ('0' <= c && c <= '9')
}

/// Whether an unquoted token cannot go on at index `i`: the text ends there,
/// or a blank or a pipe stands there.
pub open spec fn at_boundary(s: Seq<char>, i: int) -> bool {
    i >= s.len() || is_blank(s[i]) || s[i] == '|'
}

/// What may stand behind a `$`: `?`, or a name.
pub open spec fn is_variable_name(name: Seq<char>) -> bool {
    ||| name == seq!['?']
    ||| {
        &&& name.len() >= 1
        &&& is_name_start(name[0])
        &&& forall|k: int| 0 <= k < name.len() ==> is_name_char(#[trigger] name[k])
    }
}

/// The index behind the longest run of name characters that begins at `i`.
pub open spec fn name_end(s: Seq<char>, i: int) -> int
    decreases s.len() - i,
{
    if 0 <= i < s.len() && is_name_char(s[i]) {
        name_end(s, i + 1)
    } else {
        i
    }
}

/// The index behind the variable name that begins at `i`, if one begins there.
pub open spec fn variable_end(s: Seq<char>, i: int) -> Option<int> {
    if 0 <= i < s.len() && s[i] == '?' {
        Some(i + 1)
    } else if 0 <= i < s.len() && is_name_start(s[i]) {
        Some(name_end(s, i + 1))
    } else {
        None
    }
}

/// Puts `prefix` before the text of a scanned word.
pub open spec fn with_prefix(prefix: Seq<char>, rest: Result<Lexeme, TokenizationError>) -> Result<
    Lexeme,
    TokenizationError,
> {
    match rest {
        Ok(l) => Ok(Lexeme { text: prefix + l.text, end: l.end }),
        Err(e) => Err(e),
    }
}

/// The rest of a word from index `i` on, when the characters before `i` have
/// left the scan in `quoting`.
pub open spec fn scan_word(s: Seq<char>, i: int, quoting: Quoting) -> Result<
    Lexeme,
    TokenizationError,
>
    decreases s.len() - i,
{
    if i < 0 {
        Err(TokenizationError::UnterminatedQuote)
    } else {
        match quoting {
            Quoting::Bare => {
                if at_boundary(s, i) {
                    Ok(Lexeme { text: Seq::empty(), end: i })
                } else if s[i] == '\\' {
                    if i + 1 >= s.len() {
                        Err(TokenizationError::UnterminatedEscape)
                    } else {
                        with_prefix(seq![s[i + 1]], scan_word(s, i + 2, Quoting::Bare))
                    }
                } else if s[i] == '\'' {
                    scan_word(s, i + 1, Quoting::Single)
                } else if s[i] == '"' {
                    scan_word(s, i + 1, Quoting::Double)
                } else {
                    with_prefix(seq![s[i]], scan_word(s, i + 1, Quoting::Bare))
                }
            },
            Quoting::Single => {
                if i >= s.len() {
                    Err(TokenizationError::UnterminatedQuote)
                } else if s[i] == '\'' {
                    scan_word(s, i + 1, Quoting::Bare)
                } else {
                    with_prefix(seq![s[i]], scan_word(s, i + 1, Quoting::Single))
                }
            },
            Quoting::Double => {
                if i >= s.len() {
                    Err(TokenizationError::UnterminatedQuote)
                } else if s[i] == '"' {
                    scan_word(s, i + 1, Quoting::Bare)
                } else if s[i] == '\\' {
                    if i + 1 >= s.len() {
                        Err(TokenizationError::UnterminatedEscape)
                    } else {
                        with_prefix(seq![s[i + 1]], scan_word(s, i + 2, Quoting::Double))
                    }
                } else {
                    with_prefix(seq![s[i]], scan_word(s, i + 1, Quoting::Double))
                }
            },
        }
    }
}

/// A run of name characters ends at or behind its beginning, within the text.
pub proof fn lemma_name_end_bounds(s: Seq<char>, i: int)
    requires
        0 <= i <= s.len(),
    ensures
        i <= name_end(s, i) <= s.len(),
    decreases s.len() - i,
{
    if i < s.len() && is_name_char(s[i]) {
        lemma_name_end_bounds(s, i + 1);
    }
}

/// A word ends within the text, at or behind the index where its scan
/// began, and behind it where the scan began on a character of the word.
pub proof fn lemma_scan_word_bounds(s: Seq<char>, i: int, quoting: Quoting)
    requires
        0 <= i <= s.len(),
    ensures
        scan_word(s, i, quoting) matches Ok(word) ==> {
            &&& i <= word.end <= s.len()
            &&& (quoting != Quoting::Bare || !at_boundary(s, i)) ==> i < word.end
        },
    decreases s.len() - i,
{
    if i < s.len() {
        match quoting {
            Quoting::Bare => {
                if at_boundary(s, i) {
                } else if s[i] == '\\' {
                    if i + 1 < s.len() {
                        lemma_scan_word_bounds(s, i + 2, Quoting::Bare);
                    }
                } else if s[i] == '\'' {
                    lemma_scan_word_bounds(s, i + 1, Quoting::Single);
                } else if s[i] == '"' {
                    lemma_scan_word_bounds(s, i + 1, Quoting::Double);
                } else {
                    lemma_scan_word_bounds(s, i + 1, Quoting::Bare);
                }
            },
            Quoting::Single => {
                if s[i] == '\'' {
                    lemma_scan_word_bounds(s, i + 1, Quoting::Bare);
                } else {
                    lemma_scan_word_bounds(s, i + 1, Quoting::Single);
                }
            },
            Quoting::Double => {
                if s[i] == '"' {
                    lemma_scan_word_bounds(s, i + 1, Quoting::Bare);
                } else if s[i] == '\\' {
                    if i + 1 < s.len() {
                        lemma_scan_word_bounds(s, i + 2, Quoting::Double);
                    }
                } else {
                    lemma_scan_word_bounds(s, i + 1, Quoting::Double);
                }
            },
        }
    }
}

/// Puts `done` before the tokens of the rest of a line.
pub open spec fn with_tokens(
    done: Seq<TokenView>,
    rest: Result<Seq<TokenView>, TokenizationError>,
) -> Result<Seq<TokenView>, TokenizationError> {
    match rest {
        Ok(tokens) => Ok(done + tokens),
        Err(e) => Err(e),
    }
}

/// The tokens of `s` from index `i` on, where `i` stands between tokens.
pub open spec fn tokens_from(s: Seq<char>, i: int) -> Result<Seq<TokenView>, TokenizationError>
    decreases s.len() - i,
{
    if i < 0 || i >= s.len() {
        Ok(Seq::empty())
    } else if is_blank(s[i]) {
        tokens_from(s, i + 1)
    } else if s[i] == '|' {
        with_tokens(seq![TokenView::Pipe], tokens_from(s, i + 1))
    } else if s[i] == '$' {
        match variable_end(s, i + 1) {
            Some(j) => {
                if at_boundary(s, j) {
                    proof {
                        lemma_name_end_bounds(s, i + 2);
                    }
                    with_tokens(
                        seq![TokenView::Variable(s.subrange(i + 1, j))],
                        tokens_from(s, j),
                    )
                } else {
                    Err(TokenizationError::MalformedVariable)
                }
            },
            None => Err(TokenizationError::MalformedVariable),
        }
    } else {
        match scan_word(s, i, Quoting::Bare) {
            Ok(word) => {
                proof {
                    lemma_scan_word_bounds(s, i, Quoting::Bare);
                }
                with_tokens(seq![TokenView::Word(word.text)], tokens_from(s, word.end))
            },
            Err(e) => Err(e),
        }
    }
}

/// The tokens of a line, or the reason why it has none.
pub open spec fn tokens_of(s: Seq<char>) -> Result<Seq<TokenView>, TokenizationError> {
    tokens_from(s, 0)
}

/// View of what [`tokenize`] returns.
pub open spec fn view_tokens(r: Result<Vec<Token>, TokenizationError>) -> Result<
    Seq<TokenView>,
    TokenizationError,
> {
    match r {
        Ok(tokens) => Ok(tokens.deep_view()),
        Err(e) => Err(e),
    }
}

fn blank(c: char) -> (b: bool)
    ensures
        b == is_blank(c),
{
    c == ' ' || c == '\t' || c == '\n' || c == '\r'
}

fn name_start(c: char) -> (b: bool)
    ensures
        b == is_name_start(c),
{
    (c >= 'a' && c <= 'z') || (c >= 'A' && c <= 'Z') || c == '_'
}

fn name_char(c: char) -> (b: bool)
    ensures
        b == is_name_char(c),
{
    name_start(c) || (c >= '0' && c <= '9')
}

fn boundary(s: &Vec<char>, i: usize) -> (b: bool)
    ensures
        b == at_boundary(s@, i as int),
{
    i >= s.len() || blank(s[i]) || s[i] == '|'
}

/// Nothing put before a word leaves the word.
proof fn lemma_with_prefix_empty(rest: Result<Lexeme, TokenizationError>)
    ensures
        with_prefix(Seq::empty(), rest) == rest,
{
    if let Ok(l) = rest {
        assert(Seq::<char>::empty() + l.text =~= l.text);
    }
}

/// A character put before a word, and a text before that, is the text with
/// the character at its end put before the word.
proof fn lemma_with_prefix_push(
    text: Seq<char>,
    c: char,
    rest: Result<Lexeme, TokenizationError>,
)
    ensures
        with_prefix(text, with_prefix(seq![c], rest)) == with_prefix(text.push(c), rest),
{
    if let Ok(l) = rest {
        assert(text + (seq![c] + l.text) =~= text.push(c) + l.text);
    }
}

/// Scans the word that begins at index `start`.
fn read_word(s: &Vec<char>, start: usize) -> (r: Result<(String, usize), TokenizationError>)
    requires
        start <= s.len(),
    ensures
        match r {
            Ok((text, end)) => scan_word(s@, start as int, Quoting::Bare) == Ok::<
                Lexeme,
                TokenizationError,
            >(Lexeme { text: text@, end: end as int }) && end <= s.len(),
            Err(e) => scan_word(s@, start as int, Quoting::Bare) == Err::<
                Lexeme,
                TokenizationError,
            >(e),
        },
{
    let mut text = String::new();
    let mut quoting = Quoting::Bare;
    let mut i: usize = start;
    proof {
        lemma_with_prefix_empty(scan_word(s@, i as int, quoting));
    }
    loop
        invariant
            start <= i <= s.len(),
            scan_word(s@, start as int, Quoting::Bare) == with_prefix(
                text@,
                scan_word(s@, i as int, quoting),
            ),
        decreases s.len() - i,
    {
        let ghost before = text@;
        match quoting {
            Quoting::Bare => {
                if boundary(s, i) {
                    assert(text@ + Seq::<char>::empty() =~= text@);
                    return Ok((text, i));
                }
                let c = s[i];
                if c == '\\' {
                    if i + 1 >= s.len() {
                        return Err(TokenizationError::UnterminatedEscape);
                    }
                    text.push(s[i + 1]);
                    proof {
                        lemma_with_prefix_push(
                            before,
                            s@[i + 1],
                            scan_word(s@, i + 2, Quoting::Bare),
                        );
                    }
                    i += 2;
                } else if c == '\'' {
                    quoting = Quoting::Single;
                    i += 1;
                } else if c == '"' {
                    quoting = Quoting::Double;
                    i += 1;
                } else {
                    text.push(c);
                    proof {
                        lemma_with_prefix_push(before, c, scan_word(s@, i + 1, Quoting::Bare));
                    }
                    i += 1;
                }
            },
            Quoting::Single => {
                if i >= s.len() {
                    return Err(TokenizationError::UnterminatedQuote);
                }
                let c = s[i];
                if c == '\'' {
                    quoting = Quoting::Bare;
                } else {
                    text.push(c);
                    proof {
                        lemma_with_prefix_push(before, c, scan_word(s@, i + 1, Quoting::Single));
                    }
                }
                i += 1;
            },
            Quoting::Double => {
                if i >= s.len() {
                    return Err(TokenizationError::UnterminatedQuote);
                }
                let c = s[i];
                if c == '"' {
                    quoting = Quoting::Bare;
                    i += 1;
                } else if c == '\\' {
                    if i + 1 >= s.len() {
                        return Err(TokenizationError::UnterminatedEscape);
                    }
                    text.push(s[i + 1]);
                    proof {
                        lemma_with_prefix_push(
                            before,
                            s@[i + 1],
                            scan_word(s@, i + 2, Quoting::Double),
                        );
                    }
                    i += 2;
                } else {
                    text.push(c);
                    proof {
                        lemma_with_prefix_push(before, c, scan_word(s@, i + 1, Quoting::Double));
                    }
                    i += 1;
                }
            },
        }
    }
}

/// Finds the end of the variable name that begins at index `i`.
fn read_variable(s: &Vec<char>, i: usize) -> (r: Option<usize>)
    requires
        i <= s.len(),
    ensures
        r matches Some(j) ==> i < j <= s.len(),
        match r {
            Some(j) => variable_end(s@, i as int) == Some(j as int),
            None => variable_end(s@, i as int) is None,
        },
{
    if i >= s.len() {
        None
    } else if s[i] == '?' {
        Some(i + 1)
    } else if name_start(s[i]) {
        let mut j: usize = i + 1;
        while j < s.len() && name_char(s[j])
            invariant
                i < j <= s.len(),
                name_end(s@, i + 1) == name_end(s@, j as int),
            decreases s.len() - j,
        {
            j += 1;
        }
        Some(j)
    } else {
        None
    }
}

/// No tokens put before the rest leaves the rest.
proof fn lemma_with_tokens_empty(rest: Result<Seq<TokenView>, TokenizationError>)
    ensures
        with_tokens(Seq::empty(), rest) == rest,
{
    if let Ok(tokens) = rest {
        assert(Seq::<TokenView>::empty() + tokens =~= tokens);
    }
}

/// A token put before the rest, and tokens before that, is the tokens with
/// the token at their end put before the rest.
proof fn lemma_with_tokens_push(
    done: Seq<TokenView>,
    token: TokenView,
    rest: Result<Seq<TokenView>, TokenizationError>,
)
    ensures
        with_tokens(done, with_tokens(seq![token], rest)) == with_tokens(done.push(token), rest),
{
    if let Ok(tokens) = rest {
        assert(done + (seq![token] + tokens) =~= done.push(token) + tokens);
    }
}

/// Splits a line into its tokens. A line of blanks, or of nothing, has no
/// tokens and is no error. The line has no tokens at all where a quote or a
/// backslash is left open, or where a `$` opens a token that is not one
/// complete variable reference.
pub fn tokenize(line: &str) -> (r: Result<Vec<Token>, TokenizationError>)
    ensures
        view_tokens(r) == tokens_of(line@),
{
    let s = chars_of(line);
    let mut tokens: Vec<Token> = Vec::new();
    let mut i: usize = 0;
    proof {
        assert(tokens.deep_view() =~= Seq::<TokenView>::empty());
        lemma_with_tokens_empty(tokens_from(s@, 0));
    }
    while i < s.len()
        invariant
            i <= s.len(),
            s@ == line@,
            tokens_of(s@) == with_tokens(tokens.deep_view(), tokens_from(s@, i as int)),
        decreases s.len() - i,
    {
        let ghost done = tokens.deep_view();
        let c = s[i];
        if blank(c) {
            i += 1;
        } else if c == '|' {
            tokens.push(Token::Pipe);
            proof {
                assert(tokens.deep_view() =~= done.push(TokenView::Pipe));
                lemma_with_tokens_push(done, TokenView::Pipe, tokens_from(s@, i + 1));
            }
            i += 1;
        } else if c == '$' {
            match read_variable(&s, i + 1) {
                Some(j) => {
                    if !boundary(&s, j) {
                        return Err(TokenizationError::MalformedVariable);
                    }
                    let name = text_of(&s, i + 1, j);
                    let ghost token = TokenView::Variable(name@);
                    tokens.push(Token::Variable(name));
                    proof {
                        assert(tokens.deep_view() =~= done.push(token));
                        lemma_with_tokens_push(done, token, tokens_from(s@, j as int));
                    }
                    i = j;
                },
                None => {
                    return Err(TokenizationError::MalformedVariable);
                },
            }
        } else {
            match read_word(&s, i) {
                Ok((text, end)) => {
                    proof {
                        lemma_scan_word_bounds(s@, i as int, Quoting::Bare);
                    }
                    let ghost token = TokenView::Word(text@);
                    tokens.push(Token::Word(text));
                    proof {
                        assert(tokens.deep_view() =~= done.push(token));
                        lemma_with_tokens_push(done, token, tokens_from(s@, end as int));
                    }
                    i = end;
                },
                Err(e) => {
                    return Err(e);
                },
            }
        }
    }
    assert(tokens.deep_view() + Seq::<TokenView>::empty() =~= tokens.deep_view());
    Ok(tokens)
}

/// Whether `c` stands for itself wherever it occurs in a word: it is no
/// blank, no pipe, no quote and no backslash.
pub open spec fn is_plain(c: char) -> bool {
    !is_blank(c) && c != '|' && c != '\\' && c != '\'' && c != '"'
}

/// Whether every character of `s` is a blank.
pub open spec fn is_blank_line(s: Seq<char>) -> bool {
    forall|i: int| 0 <= i < s.len() ==> is_blank(#[trigger] s[i])
}

proof fn lemma_blanks_from(s: Seq<char>, i: int)
    requires
        is_blank_line(s),
        0 <= i <= s.len(),
    ensures
        tokens_from(s, i) == Ok::<Seq<TokenView>, TokenizationError>(Seq::empty()),
    decreases s.len() - i,
{
    if i < s.len() {
        assert(is_blank(s[i]));
        lemma_blanks_from(s, i + 1);
    }
}

/// A line of nothing but blanks, the empty line among them, has no tokens
/// and is no error.
pub proof fn lemma_blank_line_has_no_tokens(s: Seq<char>)
    requires
        is_blank_line(s),
    ensures
        tokens_of(s) == Ok::<Seq<TokenView>, TokenizationError>(Seq::empty()),
{
    lemma_blanks_from(s, 0);
}

proof fn lemma_plain_rest(s: Seq<char>, i: int)
    requires
        0 <= i <= s.len(),
        forall|k: int| i <= k < s.len() ==> is_plain(#[trigger] s[k]),
    ensures
        scan_word(s, i, Quoting::Bare) == Ok::<Lexeme, TokenizationError>(
            Lexeme { text: s.subrange(i, s.len() as int), end: s.len() as int },
        ),
    decreases s.len() - i,
{
    if i < s.len() {
        assert(is_plain(s[i]));
        lemma_plain_rest(s, i + 1);
        assert(seq![s[i]] + s.subrange(i + 1, s.len() as int) =~= s.subrange(i, s.len() as int));
    } else {
        assert(s.subrange(i, s.len() as int) =~= Seq::<char>::empty());
    }
}

/// A text of plain characters that does not begin with `$` is one word, and
/// the word's text is that text.
pub proof fn lemma_plain_text_is_one_word(s: Seq<char>)
    requires
        s.len() > 0,
        s[0] != '$',
        forall|k: int| 0 <= k < s.len() ==> is_plain(#[trigger] s[k]),
    ensures
        tokens_of(s) == Ok::<Seq<TokenView>, TokenizationError>(seq![TokenView::Word(s)]),
{
    assert(is_plain(s[0]));
    lemma_plain_rest(s, 0);
    assert(s.subrange(0, s.len() as int) =~= s);
    assert(tokens_from(s, s.len() as int) == Ok::<Seq<TokenView>, TokenizationError>(
        Seq::empty(),
    ));
    assert(seq![TokenView::Word(s)] + Seq::<TokenView>::empty() =~= seq![TokenView::Word(s)]);
}

proof fn lemma_name_runs_to_end(s: Seq<char>, i: int)
    requires
        0 <= i <= s.len(),
        forall|k: int| i <= k < s.len() ==> is_name_char(#[trigger] s[k]),
    ensures
        name_end(s, i) == s.len(),
    decreases s.len() - i,
{
    if i < s.len() {
        assert(is_name_char(s[i]));
        lemma_name_runs_to_end(s, i + 1);
    }
}

/// `$` and a variable name, alone on a line, is one reference to that name.
pub proof fn lemma_reference_is_one_variable(name: Seq<char>)
    requires
        is_variable_name(name),
    ensures
        tokens_of(seq!['$'] + name) == Ok::<Seq<TokenView>, TokenizationError>(
            seq![TokenView::Variable(name)],
        ),
{
    let s = seq!['$'] + name;
    assert(s.subrange(1, s.len() as int) =~= name);
    if name == seq!['?'] {
        assert(s[1] == '?');
    } else {
        assert(s[1] == name[0]);
        assert forall|k: int| 2 <= k < s.len() implies is_name_char(#[trigger] s[k]) by {
            assert(s[k] == name[k - 1]);
        }
        lemma_name_runs_to_end(s, 2);
    }
    assert(variable_end(s, 1) == Some(s.len() as int));
    assert(tokens_from(s, s.len() as int) == Ok::<Seq<TokenView>, TokenizationError>(
        Seq::empty(),
    ));
    assert(seq![TokenView::Variable(name)] + Seq::<TokenView>::empty() =~= seq![
        TokenView::Variable(name),
    ]);
}

} // verus!
