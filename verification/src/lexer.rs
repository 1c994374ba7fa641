//! The front end's lexer: source text to positioned tokens, with comments and
//! whitespace dropped and line breaks kept as tokens of their own.
use crate::fault::Fault;
use crate::numbers::{decimal, push_decimal};
use crate::syntax::{is_whitespace, is_whitespace_char, slice_chars, string_of};
use crate::text::{chars_of, push_str};
use vstd::prelude::*;
use vstd::string::{StringExecFns, StringSliceAdditionalSpecFns};
use vstd::utf8::encode_utf8;

verus! {

/// The largest source the lexer accepts, in UTF-8 bytes.
pub const MAX_SOURCE_BYTES: usize = 1_048_576;

/// A token and the 1-based line and column of its first character.
#[derive(Debug, Clone, PartialEq, Eq)]
pub struct Token {
    pub text: String,
    pub line: usize,
    pub column: usize,
}

/// A token's text, line and column.
pub open spec fn token_view(t: Token) -> (Seq<char>, int, int) {
    (t.text@, t.line as int, t.column as int)
}

/// The views of a token list.
pub open spec fn tokens_view(v: Seq<Token>) -> Seq<(Seq<char>, int, int)> {
    Seq::new(v.len(), |i: int| token_view(v[i]))
}

/// The quoted, escaped spelling `{:?}` gives a character.
pub uninterp spec fn debug_char(c: char) -> Seq<char>;

/// Quotes and escapes a character as its `Debug` form does.
#[verifier::external_body]
fn quoted_char(c: char) -> (q: String)
    ensures
        q@ == debug_char(c),
{
    format!("{c:?}")
}

/// A diagnostic positioned at a line and column.
pub open spec fn positioned(line: int, column: int, message: Seq<char>) -> Seq<char> {
    "source "@ + decimal(line as nat) + ":"@ + decimal(column as nat) + ": "@ + message
}

pub open spec fn is_ascii_alpha(c: char) -> bool {
    ('a' <= c <= 'z') || ('A' <= c <= 'Z')
}

pub open spec fn is_ascii_digit(c: char) -> bool {
    '0' <= c <= '9'
}

/// A character that continues an identifier.
pub open spec fn is_word_char(c: char) -> bool {
    is_ascii_alpha(c) || is_ascii_digit(c) || c == '_'
}

/// The end of the run of identifier characters from `i`.
pub open spec fn word_end(s: Seq<char>, i: int) -> int
    decreases s.len() - i,
{
    if i < 0 || i >= s.len() || !is_word_char(s[i]) {
        i
    } else {
        word_end(s, i + 1)
    }
}

/// The end of the run of digits from `i`.
pub open spec fn digits_end(s: Seq<char>, i: int) -> int
    decreases s.len() - i,
{
    if i < 0 || i >= s.len() || !is_ascii_digit(s[i]) {
        i
    } else {
        digits_end(s, i + 1)
    }
}

/// The position of the first line break at or after `i`, else the end.
pub open spec fn line_end(s: Seq<char>, i: int) -> int
    decreases s.len() - i,
{
    if i < 0 || i >= s.len() || s[i] == '\n' {
        if i < 0 {
            0
        } else if i >= s.len() {
            s.len() as int
        } else {
            i
        }
    } else {
        line_end(s, i + 1)
    }
}

/// Scans a string literal's body from `i`: the position after its closing
/// quote, or why the literal is refused.
pub open spec fn string_end(s: Seq<char>, i: int, escaped: bool) -> Result<int, Seq<char>>
    decreases s.len() - i,
{
    if i < 0 || i >= s.len() {
        Err("unterminated string literal"@)
    } else if s[i] == '\n' || s[i] == '\r' {
        Err("string literal must end on the same line"@)
    } else if !escaped && s[i] == '"' {
        Ok(i + 1)
    } else {
        string_end(s, i + 1, !escaped && s[i] == '\\')
    }
}

/// Whether the text at `i` starts with `p`.
pub open spec fn starts_with_at(s: Seq<char>, i: int, p: Seq<char>) -> bool {
    0 <= i && i + p.len() <= s.len() && s.subrange(i, i + p.len()) == p
}

/// The two-character operators.
pub open spec fn two_char_operator(s: Seq<char>, i: int) -> bool {
    starts_with_at(s, i, "->"@) || starts_with_at(s, i, "=>"@) || starts_with_at(s, i, ".."@)
        || starts_with_at(s, i, "=="@) || starts_with_at(s, i, "!="@) || starts_with_at(
        s,
        i,
        "<="@,
    ) || starts_with_at(s, i, ">="@) || starts_with_at(s, i, "&&"@) || starts_with_at(s, i, "||"@)
}

/// The single-character punctuators.
pub open spec fn punctuator(c: char) -> bool {
    "(){}[]:,.;&*+-=/!<>"@.contains(c)
}

/// The length of the token at `i`, or why its first character is refused.
pub open spec fn token_length(s: Seq<char>, i: int) -> Result<int, Seq<char>> {
    let first = s[i];
    if is_ascii_alpha(first) || first == '_' {
        Ok(word_end(s, i) - i)
    } else if is_ascii_digit(first) {
        Ok(digits_end(s, i) - i)
    } else if first == '"' {
        match string_end(s, i + 1, false) {
            Ok(e) => Ok(e - i),
            Err(m) => Err(m),
        }
    } else if starts_with_at(s, i, "..<"@) {
        Ok(3)
    } else if two_char_operator(s, i) {
        Ok(2)
    } else if punctuator(first) {
        Ok(1)
    } else {
        Err("unsupported character "@ + debug_char(first))
    }
}

pub proof fn lemma_word_end(s: Seq<char>, i: int)
    requires
        0 <= i <= s.len(),
    ensures
        i <= word_end(s, i) <= s.len(),
    decreases s.len() - i,
{
    if i < s.len() && is_word_char(s[i]) {
        lemma_word_end(s, i + 1);
    }
}

pub proof fn lemma_digits_end(s: Seq<char>, i: int)
    requires
        0 <= i <= s.len(),
    ensures
        i <= digits_end(s, i) <= s.len(),
    decreases s.len() - i,
{
    if i < s.len() && is_ascii_digit(s[i]) {
        lemma_digits_end(s, i + 1);
    }
}

pub proof fn lemma_line_end(s: Seq<char>, i: int)
    requires
        0 <= i <= s.len(),
    ensures
        i <= line_end(s, i) <= s.len(),
    decreases s.len() - i,
{
    if i < s.len() && s[i] != '\n' {
        lemma_line_end(s, i + 1);
    }
}

pub proof fn lemma_string_end(s: Seq<char>, i: int, escaped: bool)
    requires
        0 <= i,
    ensures
        string_end(s, i, escaped) matches Ok(e) ==> i < e <= s.len(),
    decreases s.len() - i,
{
    if 0 <= i < s.len() && !(s[i] == '\n' || s[i] == '\r') && !(!escaped && s[i] == '"') {
        lemma_string_end(s, i + 1, !escaped && s[i] == '\\');
    }
}

/// Every token is at least one character long and ends within the text.
pub proof fn lemma_token_length(s: Seq<char>, i: int)
    requires
        0 <= i < s.len(),
    ensures
        token_length(s, i) matches Ok(k) ==> 1 <= k && i + k <= s.len(),
{
    lemma_word_end(s, i + 1);
    lemma_digits_end(s, i + 1);
    lemma_string_end(s, i + 1, false);
    reveal_strlit("..<");
    reveal_strlit("->");
    reveal_strlit("=>");
    reveal_strlit("..");
    reveal_strlit("==");
    reveal_strlit("!=");
    reveal_strlit("<=");
    reveal_strlit(">=");
    reveal_strlit("&&");
    reveal_strlit("||");
    let first = s[i];
    if is_ascii_alpha(first) || first == '_' {
        assert(word_end(s, i) == word_end(s, i + 1));
    } else if is_ascii_digit(first) {
        assert(digits_end(s, i) == digits_end(s, i + 1));
    }
}

/// The tokens of the text from `i` on, the token at `i` at `line` and
/// `column`, ending with an empty token at the end of the text; or the first
/// refusal, positioned.
pub open spec fn lex_from(s: Seq<char>, i: int, line: int, column: int) -> Result<
    Seq<(Seq<char>, int, int)>,
    Seq<char>,
>
    decreases s.len() - i,
{
    if i < 0 || i >= s.len() {
        Ok(seq![(Seq::<char>::empty(), line, column)])
    } else if starts_with_at(s, i, "//"@) {
        let e = line_end(s, i);
        proof {
            lemma_line_end(s, i);
        }
        if e <= i {
            Ok(Seq::empty())
        } else {
            lex_from(s, e, line, column + (e - i))
        }
    } else if s[i] == '\n' {
        match lex_from(s, i + 1, line + 1, 1) {
            Ok(rest) => Ok(seq![(seq!['\n'], line, column)] + rest),
            Err(m) => Err(m),
        }
    } else if is_whitespace(s[i]) {
        lex_from(s, i + 1, line, column + 1)
    } else {
        proof {
            lemma_token_length(s, i);
        }
        match token_length(s, i) {
            Err(m) => Err(positioned(line, column, m)),
            Ok(k) => match lex_from(s, i + k, line, column + k) {
                Ok(rest) => Ok(seq![(s.subrange(i, i + k), line, column)] + rest),
                Err(m) => Err(m),
            },
        }
    }
}

/// Whatever the lexer accepts ends with its empty end-of-source token.
pub proof fn lemma_lex_from_ends_empty(s: Seq<char>, i: int, line: int, column: int)
    requires
        0 <= i,
    ensures
        lex_from(s, i, line, column) matches Ok(ts) ==> ts.len() > 0 && ts.last().0.len() == 0,
    decreases s.len() - i,
{
    reveal_strlit("//");
    if i < s.len() {
        if starts_with_at(s, i, "//"@) {
            lemma_line_end(s, i + 1);
            assert(s[i] == s.subrange(i, i + 2)[0]);
            assert(line_end(s, i) == line_end(s, i + 1));
            let e = line_end(s, i);
            lemma_lex_from_ends_empty(s, e, line, column + (e - i));
        } else if s[i] == '\n' {
            lemma_lex_from_ends_empty(s, i + 1, line + 1, 1);
        } else if is_whitespace(s[i]) {
            lemma_lex_from_ends_empty(s, i + 1, line, column + 1);
        } else {
            lemma_token_length(s, i);
            if let Ok(k) = token_length(s, i) {
                lemma_lex_from_ends_empty(s, i + k, line, column + k);
            }
        }
    }
}

/// Whether two characters spell one of the language's two-character
/// operators: `->`, `=>`, `..`, `==`, `!=`, `<=`, `>=`, `&&` or `||`.
pub open spec fn operator_spelling(a: char, b: char) -> bool {
    ||| a == '-' && b == '>'
    ||| a == '=' && b == '>'
    ||| a == '.' && b == '.'
    ||| a == '=' && b == '='
    ||| a == '!' && b == '='
    ||| a == '<' && b == '='
    ||| a == '>' && b == '='
    ||| a == '&' && b == '&'
    ||| a == '|' && b == '|'
}

proof fn lemma_operator_spelling(s: Seq<char>, i: int)
    requires
        0 <= i,
        i + 1 < s.len(),
        operator_spelling(s[i], s[i + 1]),
        !(s[i] == '.' && i + 2 < s.len() && s[i + 2] == '<'),
    ensures
        token_length(s, i) == Ok::<int, Seq<char>>(2),
{
    reveal_strlit("..<");
    reveal_strlit("->");
    reveal_strlit("=>");
    reveal_strlit("..");
    reveal_strlit("==");
    reveal_strlit("!=");
    reveal_strlit("<=");
    reveal_strlit(">=");
    reveal_strlit("&&");
    reveal_strlit("||");
    let pair = s.subrange(i, i + 2);
    assert(pair[0] == s[i] && pair[1] == s[i + 1]);
    if i + 3 <= s.len() {
        let triple = s.subrange(i, i + 3);
        assert(triple[0] == s[i] && triple[2] == s[i + 2]);
    }
    if s[i] == '-' && s[i + 1] == '>' {
        assert(pair =~= "->"@);
    } else if s[i] == '=' && s[i + 1] == '>' {
        assert(pair =~= "=>"@);
    } else if s[i] == '.' && s[i + 1] == '.' {
        assert(pair =~= ".."@);
    } else if s[i] == '=' && s[i + 1] == '=' {
        assert(pair =~= "=="@);
    } else if s[i] == '!' && s[i + 1] == '=' {
        assert(pair =~= "!="@);
    } else if s[i] == '<' && s[i + 1] == '=' {
        assert(pair =~= "<="@);
    } else if s[i] == '>' && s[i + 1] == '=' {
        assert(pair =~= ">="@);
    } else if s[i] == '&' && s[i + 1] == '&' {
        assert(pair =~= "&&"@);
    } else {
        assert(pair =~= "||"@);
    }
}

/// Each two-character operator (`->`, `=>`, `..`, `==`, `!=`, `<=`, `>=`,
/// `&&`, `||`) is one token of length two wherever it starts, and the lexer
/// emits it whole at its line and column before the tokens that follow it
/// (`..` only where no `<` follows it, which makes `..<`).
pub proof fn law_two_char_operators(s: Seq<char>, i: int, line: int, column: int)
    requires
        0 <= i,
        i + 1 < s.len(),
        operator_spelling(s[i], s[i + 1]),
        !(s[i] == '.' && i + 2 < s.len() && s[i + 2] == '<'),
    ensures
        token_length(s, i) == Ok::<int, Seq<char>>(2),
        lex_from(s, i, line, column) == match lex_from(s, i + 2, line, column + 2) {
            Ok(rest) => Ok(seq![(seq![s[i], s[i + 1]], line, column)] + rest),
            Err(m) => Err::<Seq<(Seq<char>, int, int)>, Seq<char>>(m),
        },
{
    lemma_operator_spelling(s, i);
    reveal_strlit("//");
    if i + 2 <= s.len() {
        assert(s.subrange(i, i + 2)[0] == s[i]);
    }
    assert(!starts_with_at(s, i, "//"@));
    assert(s.subrange(i, i + 2) =~= seq![s[i], s[i + 1]]);
}

/// What the lexer makes of a source: its tokens, or why it is refused.
pub open spec fn spec_lex(source: &str) -> Result<Seq<(Seq<char>, int, int)>, Seq<char>> {
    if encode_utf8(source@).len() > 1_048_576 {
        Err("source exceeds 1 MiB limit"@)
    } else {
        lex_from(source@, 0, 1, 1)
    }
}


/// UTF-8 spends at least one byte per character.
proof fn lemma_encoded_len(chars: Seq<char>)
    ensures
        encode_utf8(chars).len() >= chars.len(),
    decreases chars.len(),
{
    if chars.len() > 0 {
        lemma_encoded_len(chars.drop_first());
    }
}

fn word_end_exec(s: &Vec<char>, i: usize) -> (e: usize)
    requires
        i <= s@.len(),
    ensures
        e == word_end(s@, i as int),
{
    let mut j = i;
    while j < s.len() && (('a' <= s[j] && s[j] <= 'z') || ('A' <= s[j] && s[j] <= 'Z') || ('0'
        <= s[j] && s[j] <= '9') || s[j] == '_')
        invariant
            i <= j <= s@.len(),
            word_end(s@, i as int) == word_end(s@, j as int),
        decreases s.len() - j,
    {
        j += 1;
    }
    j
}

fn digits_end_exec(s: &Vec<char>, i: usize) -> (e: usize)
    requires
        i <= s@.len(),
    ensures
        e == digits_end(s@, i as int),
{
    let mut j = i;
    while j < s.len() && '0' <= s[j] && s[j] <= '9'
        invariant
            i <= j <= s@.len(),
            digits_end(s@, i as int) == digits_end(s@, j as int),
        decreases s.len() - j,
    {
        j += 1;
    }
    j
}

fn line_end_exec(s: &Vec<char>, i: usize) -> (e: usize)
    requires
        i <= s@.len(),
    ensures
        e == line_end(s@, i as int),
{
    let mut j = i;
    while j < s.len() && s[j] != '\n'
        invariant
            i <= j <= s@.len(),
            line_end(s@, i as int) == line_end(s@, j as int),
        decreases s.len() - j,
    {
        j += 1;
    }
    j
}

fn string_end_exec(s: &Vec<char>, i: usize) -> (r: Result<usize, &'static str>)
    requires
        i <= s@.len(),
    ensures
        match string_end(s@, i as int, false) {
            Ok(e) => r == Ok::<usize, &'static str>(e as usize),
            Err(m) => r matches Err(t) && t@ == m,
        },
{
    let mut j = i;
    let mut escaped = false;
    proof {
        lemma_string_end(s@, i as int, false);
    }
    while j < s.len()
        invariant
            i <= j <= s@.len(),
            string_end(s@, i as int, false) == string_end(s@, j as int, escaped),
        decreases s.len() - j,
    {
        let c = s[j];
        if c == '\n' || c == '\r' {
            return Err("string literal must end on the same line");
        }
        if !escaped && c == '"' {
            return Ok(j + 1);
        }
        escaped = !escaped && c == '\\';
        j += 1;
    }
    Err("unterminated string literal")
}

fn starts_with_exec(s: &Vec<char>, i: usize, p: &str) -> (b: bool)
    requires
        i <= s@.len(),
    ensures
        b == starts_with_at(s@, i as int, p@),
{
    let q = chars_of(p);
    let sl = s.len();
    if q.len() > sl - i {
        return false;
    }
    let mut j: usize = 0;
    while j < q.len()
        invariant
            sl == s@.len(),
            j <= q@.len(),
            q@ == p@,
            i + q@.len() <= s@.len(),
            forall|l: int| 0 <= l < j ==> s@[i + l] == q@[l],
        decreases q.len() - j,
    {
        if s[i + j] != q[j] {
            assert(s@.subrange(i as int, i + q@.len())[j as int] != p@[j as int]);
            return false;
        }
        j += 1;
    }
    assert(s@.subrange(i as int, i + q@.len()) =~= p@);
    true
}

fn is_punctuator(c: char) -> (b: bool)
    ensures
        b == punctuator(c),
{
    let punctuators = chars_of("(){}[]:,.;&*+-=/!<>");
    let mut j: usize = 0;
    while j < punctuators.len()
        invariant
            j <= punctuators@.len(),
            punctuators@ == "(){}[]:,.;&*+-=/!<>"@,
            forall|l: int| 0 <= l < j ==> punctuators@[l] != c,
        decreases punctuators.len() - j,
    {
        if punctuators[j] == c {
            assert(punctuators@[j as int] == c);
            return true;
        }
        j += 1;
    }
    false
}

/// The length of the token at `i` (see `token_length`).
fn token_length_exec(s: &Vec<char>, i: usize) -> (r: Result<usize, String>)
    requires
        i < s@.len(),
    ensures
        match token_length(s@, i as int) {
            Ok(k) => r == Ok::<usize, String>(k as usize),
            Err(m) => r matches Err(t) && t@ == m,
        },
{
    proof {
        lemma_token_length(s@, i as int);
        lemma_word_end(s@, i as int);
        lemma_digits_end(s@, i as int);
    }
    let n = s.len();
    let first = s[i];
    if ('a' <= first && first <= 'z') || ('A' <= first && first <= 'Z') || first == '_' {
        return Ok(word_end_exec(s, i) - i);
    }
    if '0' <= first && first <= '9' {
        return Ok(digits_end_exec(s, i) - i);
    }
    if first == '"' {
        proof {
            lemma_string_end(s@, i + 1, false);
        }
        return match string_end_exec(s, i + 1) {
            Ok(e) => Ok(e - i),
            Err(m) => Err(String::from_str(m)),
        };
    }
    if starts_with_exec(s, i, "..<") {
        return Ok(3);
    }
    if starts_with_exec(s, i, "->") || starts_with_exec(s, i, "=>") || starts_with_exec(s, i, "..")
        || starts_with_exec(s, i, "==") || starts_with_exec(s, i, "!=") || starts_with_exec(
        s,
        i,
        "<=",
    ) || starts_with_exec(s, i, ">=") || starts_with_exec(s, i, "&&") || starts_with_exec(
        s,
        i,
        "||",
    ) {
        return Ok(2);
    }
    if is_punctuator(first) {
        return Ok(1);
    }
    let mut message = String::from_str("unsupported character ");
    let q = quoted_char(first);
    push_str(&mut message, q.as_str());
    Err(message)
}

/// The fault for a refusal at a line and column.
pub(crate) fn positioned_fault(line: usize, column: usize, message: &str) -> (f: Fault)
    ensures
        f.message@ == positioned(line as int, column as int, message@),
{
    let mut text = String::from_str("source ");
    push_decimal(&mut text, line as u64);
    push_str(&mut text, ":");
    push_decimal(&mut text, column as u64);
    push_str(&mut text, ": ");
    push_str(&mut text, message);
    Fault::from_message(text)
}

/// Splits a source into tokens (see `spec_lex`).
pub fn lex(source: &str) -> (r: Result<Vec<Token>, Fault>)
    ensures
        match spec_lex(source) {
            Ok(ts) => r matches Ok(v) && tokens_view(v@) == ts,
            Err(m) => r matches Err(f) && f.message@ == m,
        },
{
    let bytes = source.as_bytes().len();
    assert(source.spec_bytes() == encode_utf8(source@));
    if bytes > MAX_SOURCE_BYTES {
        return Err(Fault::new("source exceeds 1 MiB limit"));
    }
    let s = chars_of(source);
    proof {
        lemma_encoded_len(source@);
        match lex_from(s@, 0, 1, 1) {
            Ok(rest) => {
                assert(tokens_view(Seq::<Token>::empty()) + rest =~= rest);
            },
            Err(m) => {},
        }
    }
    let n = s.len();
    let mut tokens: Vec<Token> = Vec::new();
    let mut i: usize = 0;
    let mut line: usize = 1;
    let mut column: usize = 1;
    while i < n
        invariant
            n == s@.len() <= 1_048_576,
            s@ == source@,
            i <= n,
            1 <= line <= i + 1,
            1 <= column <= i + 1,
            spec_lex(source) == match lex_from(s@, i as int, line as int, column as int) {
                Ok(rest) => Ok(tokens_view(tokens@) + rest),
                Err(m) => Err::<Seq<(Seq<char>, int, int)>, Seq<char>>(m),
            },
        decreases n - i,
    {
        if i + 1 < n && s[i] == '/' && s[i + 1] == '/' {
            proof {
                reveal_strlit("//");
                assert(s@.subrange(i as int, i + 2) =~= "//"@);
                lemma_line_end(s@, i as int);
                assert(line_end(s@, i as int) == line_end(s@, i + 2));
                lemma_line_end(s@, i + 2);
            }
            let e = line_end_exec(&s, i);
            column = column + (e - i);
            i = e;
        } else {
            proof {
                reveal_strlit("//");
                if i + 1 < n {
                    assert(s@.subrange(i as int, i + 2)[0] == s@[i as int]);
                    assert(s@.subrange(i as int, i + 2)[1] == s@[i + 1]);
                }
                assert(!starts_with_at(s@, i as int, "//"@));
            }
            if s[i] == '\n' {
                let t = Token { text: String::from_str("\n"), line, column };
                proof {
                    reveal_strlit("\n");
                    assert(t.text@ =~= seq!['\n']);
                    assert(tokens_view(tokens@.push(t)) =~= tokens_view(tokens@).push(token_view(t)));
                    match lex_from(s@, i + 1, line + 1, 1) {
                        Ok(rest) => {
                            assert(tokens_view(tokens@) + (seq![token_view(t)] + rest) =~= tokens_view(
                                tokens@.push(t),
                            ) + rest);
                        },
                        Err(m) => {},
                    }
                }
                tokens.push(t);
                i += 1;
                line += 1;
                column = 1;
            } else if is_whitespace_char(s[i]) {
                i += 1;
                column += 1;
            } else {
                proof {
                    lemma_token_length(s@, i as int);
                }
                let k = match token_length_exec(&s, i) {
                    Ok(k) => k,
                    Err(m) => return Err(positioned_fault(line, column, m.as_str())),
                };
                let text = slice_chars(&s, i, i + k);
                let t = Token { text: string_of(&text), line, column };
                proof {
                    assert(tokens_view(tokens@.push(t)) =~= tokens_view(tokens@).push(token_view(t)));
                    match lex_from(s@, i + k, line as int, column + k) {
                        Ok(rest) => {
                            assert(tokens_view(tokens@) + (seq![token_view(t)] + rest) =~= tokens_view(
                                tokens@.push(t),
                            ) + rest);
                        },
                        Err(m) => {},
                    }
                }
                tokens.push(t);
                i += k;
                column += k;
            }
        }
    }
    let end = Token { text: String::new(), line, column };
    proof {
        assert(tokens_view(tokens@.push(end)) =~= tokens_view(tokens@) + seq![token_view(end)]);
    }
    tokens.push(end);
    Ok(tokens)
}

} // verus!
