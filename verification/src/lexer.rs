//! The lexer: from text to tokens.

use crate::decimal::{is_literal_char, literal_decimal, Decimal};
use crate::error::{LexError, LexErrorView};
use crate::token::{token_views, Token, TokenView};
use vstd::prelude::*;
use vstd::string::*;
use vstd::utf8::is_ascii_chars;

verus! {

/// Whether `c` is ASCII white space: a blank, a tab, a line feed, a form
/// feed or a carriage return.
pub open spec fn is_space(c: char) -> bool {
    c == ' ' || c == '\t' || c == '\n' || c == '\x0C' || c == '\r'
}

/// Whether a variable's name may begin with `c`.
pub open spec fn is_name_start(c: char) -> bool {
    'a' <= c <= 'z' || c == '_'
}

/// Whether a variable's name may go on with `c`.
pub open spec fn is_name_char(c: char) -> bool {
    'a' <= c <= 'z' || c == '-'
}

/// The token that the character `c` is by itself, if it is one.
pub open spec fn single_token(c: char) -> Option<TokenView> {
    if c == '(' {
        Some(TokenView::ParenStart)
    } else if c == ')' {
        Some(TokenView::ParenClose)
    } else if c == '+' {
        Some(TokenView::Plus)
    } else if c == '-' {
        Some(TokenView::Minus)
    } else if c == '*' {
        Some(TokenView::Mul)
    } else if c == '/' {
        Some(TokenView::Div)
    } else if c == '=' {
        Some(TokenView::Assignment)
    } else {
        None
    }
}

/// The length of the longest run of digits and decimal points that starts
/// at `i`.
pub open spec fn literal_run_len(s: Seq<char>, i: int) -> nat
    decreases s.len() - i,
{
    if 0 <= i < s.len() && is_literal_char(s[i]) {
        1 + literal_run_len(s, i + 1)
    } else {
        0
    }
}

/// The length of the longest run of lowercase letters and hyphens that
/// starts at `i`.
pub open spec fn name_run_len(s: Seq<char>, i: int) -> nat
    decreases s.len() - i,
{
    if 0 <= i < s.len() && is_name_char(s[i]) {
        1 + name_run_len(s, i + 1)
    } else {
        0
    }
}

/// Where the number that starts at `start` ends: behind its first
/// character and the longest run of digits and decimal points after it.
pub open spec fn number_end(s: Seq<char>, start: int) -> int {
    start + 1 + literal_run_len(s, start + 1)
}

/// Where the name that starts at `start` ends: behind its first character
/// and the longest run of lowercase letters and hyphens after it.
pub open spec fn name_end(s: Seq<char>, start: int) -> int {
    start + 1 + name_run_len(s, start + 1)
}

/// The tokens `tokens` followed by those of `rest`, or the failure of
/// `rest`.
pub open spec fn prefixed(tokens: Seq<TokenView>, rest: Result<Seq<TokenView>, LexErrorView>)
    -> Result<Seq<TokenView>, LexErrorView> {
    match rest {
        Ok(more) => Ok(tokens + more),
        Err(e) => Err(e),
    }
}

/// The tokens of the ASCII text `s` from position `i` on, or the first
/// failure met on the way.
pub open spec fn lex_from(s: Seq<char>, i: int) -> Result<Seq<TokenView>, LexErrorView>
    decreases s.len() - i,
    via lex_from_terminates
{
    if i < 0 || i >= s.len() {
        Ok(Seq::empty())
    } else if is_space(s[i]) {
        lex_from(s, i + 1)
    } else if single_token(s[i]) is Some {
        prefixed(seq![single_token(s[i]).unwrap()], lex_from(s, i + 1))
    } else if is_literal_char(s[i]) {
        let end = number_end(s, i);
        match literal_decimal(s.subrange(i, end)) {
            Some(d) => prefixed(seq![TokenView::Number(d)], lex_from(s, end)),
            None => Err(LexErrorView::IllegalNumber(s.subrange(i, end))),
        }
    } else if is_name_start(s[i]) {
        let end = name_end(s, i);
        prefixed(seq![TokenView::Variable(s.subrange(i, end))], lex_from(s, end))
    } else {
        Err(LexErrorView::IllegalToken(seq![s[i]]))
    }
}

#[via_fn]
proof fn lex_from_terminates(s: Seq<char>, i: int) {
    if 0 <= i < s.len() {
        lemma_run_bounds(s, i + 1);
    }
}

/// The tokens of the text `s`, or why it has none.
pub open spec fn lex_spec(s: Seq<char>) -> Result<Seq<TokenView>, LexErrorView> {
    if !is_ascii_chars(s) {
        Err(LexErrorView::NonAsciiInput)
    } else {
        lex_from(s, 0)
    }
}

/// The content of the lexer's result.
pub open spec fn lexed_view(r: Result<Vec<Token>, LexError>) -> Result<
    Seq<TokenView>,
    LexErrorView,
> {
    match r {
        Ok(tokens) => Ok(token_views(tokens@)),
        Err(e) => Err(e@),
    }
}

/// A run ends inside the text.
pub proof fn lemma_run_bounds(s: Seq<char>, i: int)
    requires
        0 <= i <= s.len(),
    ensures
        i + literal_run_len(s, i) <= s.len(),
        i + name_run_len(s, i) <= s.len(),
    decreases s.len() - i,
{
    if i < s.len() {
        lemma_run_bounds(s, i + 1);
    }
}

/// The tokens of `rest` followed by the token `last`, or the failure of
/// `rest`.
pub open spec fn followed(rest: Result<Seq<TokenView>, LexErrorView>, last: TokenView) -> Result<
    Seq<TokenView>,
    LexErrorView,
> {
    match rest {
        Ok(tokens) => Ok(tokens.push(last)),
        Err(e) => Err(e),
    }
}

/// A run in a text is the same run where the text stands behind `before`.
proof fn lemma_run_behind(before: Seq<char>, s: Seq<char>, i: int)
    requires
        0 <= i <= s.len(),
    ensures
        literal_run_len(before + s, before.len() + i) == literal_run_len(s, i),
        name_run_len(before + s, before.len() + i) == name_run_len(s, i),
    decreases s.len() - i,
{
    if i < s.len() {
        assert((before + s)[before.len() + i] == s[i]);
        lemma_run_behind(before, s, i + 1);
    }
}

/// The tokens of a text do not depend on what stands before the place
/// where the lexer starts.
pub proof fn lemma_lex_behind(before: Seq<char>, s: Seq<char>, i: int)
    requires
        0 <= i <= s.len(),
    ensures
        lex_from(before + s, before.len() + i) == lex_from(s, i),
    decreases s.len() - i,
{
    let w = before + s;
    let k = before.len() + i;
    if i < s.len() {
        assert(w[k] == s[i]);
        lemma_run_behind(before, s, i + 1);
        lemma_run_bounds(s, i + 1);
        lemma_lex_behind(before, s, i + 1);
        if is_space(s[i]) || single_token(s[i]) is Some {
        } else if is_literal_char(s[i]) {
            let end = number_end(s, i);
            assert(number_end(w, k) == before.len() + end);
            assert(w.subrange(k, before.len() + end) =~= s.subrange(i, end));
            lemma_lex_behind(before, s, end);
        } else if is_name_start(s[i]) {
            let end = name_end(s, i);
            assert(name_end(w, k) == before.len() + end);
            assert(w.subrange(k, before.len() + end) =~= s.subrange(i, end));
            lemma_lex_behind(before, s, end);
        }
    }
}

/// A run in a text is the same run where a closing parenthesis follows the
/// text.
proof fn lemma_run_before_close(s: Seq<char>, i: int)
    requires
        0 <= i <= s.len(),
    ensures
        literal_run_len(s.push(')'), i) == literal_run_len(s, i),
        name_run_len(s.push(')'), i) == name_run_len(s, i),
    decreases s.len() - i,
{
    if i < s.len() {
        assert(s.push(')')[i] == s[i]);
        lemma_run_before_close(s, i + 1);
    }
}

/// The tokens of a text with a closing parenthesis behind it are the
/// tokens of the text and a closing parenthesis.
pub proof fn lemma_lex_before_close(s: Seq<char>, i: int)
    requires
        0 <= i <= s.len(),
    ensures
        lex_from(s.push(')'), i) == followed(lex_from(s, i), TokenView::ParenClose),
    decreases s.len() - i,
{
    let w = s.push(')');
    let close = TokenView::ParenClose;
    if i < s.len() {
        assert(w[i] == s[i]);
        lemma_run_before_close(s, i + 1);
        lemma_run_bounds(s, i + 1);
        lemma_lex_before_close(s, i + 1);
        if is_space(s[i]) {
        } else if single_token(s[i]) is Some {
            lemma_followed_prefixed(seq![single_token(s[i])->0], lex_from(s, i + 1), close);
        } else if is_literal_char(s[i]) {
            let end = number_end(s, i);
            assert(w.subrange(i, end) =~= s.subrange(i, end));
            lemma_lex_before_close(s, end);
            if literal_decimal(s.subrange(i, end)) is Some {
                lemma_followed_prefixed(
                    seq![TokenView::Number(literal_decimal(s.subrange(i, end))->0)],
                    lex_from(s, end),
                    close,
                );
            }
        } else if is_name_start(s[i]) {
            let end = name_end(s, i);
            assert(w.subrange(i, end) =~= s.subrange(i, end));
            lemma_lex_before_close(s, end);
            lemma_followed_prefixed(
                seq![TokenView::Variable(s.subrange(i, end))],
                lex_from(s, end),
                close,
            );
        }
    } else {
        assert(w[i] == ')');
        assert(lex_from(w, i + 1) == Ok::<Seq<TokenView>, LexErrorView>(Seq::empty()));
        assert(seq![close] + Seq::<TokenView>::empty() =~= Seq::<TokenView>::empty().push(close));
    }
}

proof fn lemma_followed_prefixed(
    tokens: Seq<TokenView>,
    rest: Result<Seq<TokenView>, LexErrorView>,
    last: TokenView,
)
    ensures
        prefixed(tokens, followed(rest, last)) == followed(prefixed(tokens, rest), last),
{
    if rest is Ok {
        assert(tokens + rest->Ok_0.push(last) =~= (tokens + rest->Ok_0).push(last));
    }
}

/// The text `s` between an opening and a closing parenthesis.
pub open spec fn parenthesized_text(s: Seq<char>) -> Seq<char> {
    seq!['('] + s + seq![')']
}

/// The tokens of a text between parentheses are the tokens of the text
/// between the two parenthesis tokens.
pub proof fn lemma_lex_parenthesized(s: Seq<char>)
    requires
        lex_spec(s) is Ok,
    ensures
        lex_spec(parenthesized_text(s)) == Ok::<Seq<TokenView>, LexErrorView>(
            seq![TokenView::ParenStart] + lex_spec(s)->Ok_0 + seq![TokenView::ParenClose],
        ),
{
    let w = parenthesized_text(s);
    let inner = s.push(')');
    assert(w =~= seq!['('] + inner);
    assert(is_ascii_chars(w)) by {
        assert forall|i: int| 0 <= i < w.len() implies '\0' <= #[trigger] w[i] <= '\u{7f}' by {
            if 0 < i < w.len() - 1 {
                assert(w[i] == s[i - 1]);
            }
        }
    }
    lemma_lex_behind(seq!['('], inner, 0);
    lemma_lex_before_close(s, 0);
    let tokens = lex_spec(s)->Ok_0;
    assert(seq![TokenView::ParenStart] + tokens.push(TokenView::ParenClose) =~= seq![
        TokenView::ParenStart,
    ] + tokens + seq![TokenView::ParenClose]);
}

/// Reads the variable's name that starts at `start_idx`, and says where it
/// ends.
pub fn parse_variable(input: &str, start_idx: usize) -> (r: (String, usize))
    requires
        is_ascii_chars(input@),
        start_idx < input@.len(),
    ensures
        r.1 == name_end(input@, start_idx as int),
        r.0@ == input@.subrange(start_idx as int, r.1 as int),
        start_idx < r.1 <= input@.len(),
{
    let bytes = input.as_bytes();
    proof {
        is_ascii_spec_bytes(input);
        lemma_run_bounds(input@, start_idx + 1);
    }
    let len = bytes.len();
    let mut end_idx: usize = start_idx + 1;
    while end_idx < len && is_name_byte(bytes[end_idx])
        invariant
            start_idx < end_idx <= len,
            len == input@.len(),
            is_ascii_chars(input@),
            bytes@ == Seq::new(input@.len(), |k: int| input@[k] as u8),
            name_end(input@, start_idx as int) == end_idx + name_run_len(input@, end_idx as int),
        decreases len - end_idx,
    {
        end_idx += 1;
    }
    (input.substring_ascii(start_idx, end_idx).to_owned(), end_idx)
}

/// Reads the number that starts at `start_idx`, and says where it ends.
pub fn parse_number(input: &str, start_idx: usize) -> (r: Result<(Decimal, usize), LexError>)
    requires
        is_ascii_chars(input@),
        start_idx < input@.len(),
    ensures
        ({
            let end = number_end(input@, start_idx as int);
            let text = input@.subrange(start_idx as int, end);
            match literal_decimal(text) {
                Some(d) => r matches Ok(p) && p.0@ == d && p.1 == end,
                None => r matches Err(e) && e@ == LexErrorView::IllegalNumber(text),
            }
        }),
        start_idx < number_end(input@, start_idx as int) <= input@.len(),
{
    let bytes = input.as_bytes();
    proof {
        is_ascii_spec_bytes(input);
        lemma_run_bounds(input@, start_idx + 1);
    }
    let len = bytes.len();
    let mut end_idx: usize = start_idx + 1;
    while end_idx < len && is_literal_byte(bytes[end_idx])
        invariant
            start_idx < end_idx <= len,
            len == input@.len(),
            is_ascii_chars(input@),
            bytes@ == Seq::new(input@.len(), |k: int| input@[k] as u8),
            number_end(input@, start_idx as int) == end_idx + literal_run_len(
                input@,
                end_idx as int,
            ),
        decreases len - end_idx,
    {
        end_idx += 1;
    }
    let text = input.substring_ascii(start_idx, end_idx);
    match Decimal::from_literal(text) {
        Some(number) => Ok((number, end_idx)),
        None => Err(LexError::IllegalNumber(text.to_owned())),
    }
}

/// Splits a text into its tokens. White space separates tokens and is
/// dropped; the first character that fits no token, or the first number
/// that is none, fails the whole text.
pub fn lex(input: &str) -> (r: Result<Vec<Token>, LexError>)
    ensures
        lexed_view(r) == lex_spec(input@),
{
    if !input.is_ascii() {
        return Err(LexError::NonAsciiInput);
    }
    let bytes = input.as_bytes();
    proof {
        is_ascii_spec_bytes(input);
    }
    let len = bytes.len();
    let mut result: Vec<Token> = Vec::new();
    let mut i: usize = 0;
    proof {
        let all = lex_from(input@, 0);
        if all is Ok {
            assert(token_views(result@) + all->Ok_0 =~= all->Ok_0);
        }
    }
    while i < len
        invariant
            i <= len,
            len == input@.len(),
            is_ascii_chars(input@),
            bytes@ == Seq::new(input@.len(), |k: int| input@[k] as u8),
            lex_from(input@, 0) == prefixed(token_views(result@), lex_from(input@, i as int)),
        decreases len - i,
    {
        let c = bytes[i] as char;
        let ghost before = token_views(result@);
        let ghost start = i as int;
        assert(c == input@[i as int]);
        if is_space_char(c) {
            i += 1;
            continue ;
        }
        let token = match c {
            '(' => {
                i += 1;
                Token::ParenStart
            },
            ')' => {
                i += 1;
                Token::ParenClose
            },
            '+' => {
                i += 1;
                Token::Plus
            },
            '-' => {
                i += 1;
                Token::Minus
            },
            '*' => {
                i += 1;
                Token::Mul
            },
            '/' => {
                i += 1;
                Token::Div
            },
            '=' => {
                i += 1;
                Token::Assignment
            },
            '0'..='9' | '.' => match parse_number(input, i) {
                Ok((number, end)) => {
                    i = end;
                    Token::Number(number)
                },
                Err(e) => {
                    return Err(e);
                },
            },
            'a'..='z' | '_' => {
                let (name, end) = parse_variable(input, i);
                i = end;
                Token::Variable(name)
            },
            _ => {
                let unknown = input.substring_ascii(i, i + 1).to_owned();
                assert(unknown@ =~= seq![c]);
                return Err(LexError::IllegalToken(unknown));
            },
        };
        proof {
            let more = lex_from(input@, i as int);
            assert(!is_space(c));
            assert(lex_from(input@, start) == prefixed(seq![token@], more));
        }
        result.push(token);
        proof {
            let more = lex_from(input@, i as int);
            assert(token_views(result@) =~= before.push(token@));
            if more is Ok {
                assert(before + (seq![token@] + more->Ok_0) =~= before.push(token@)
                    + more->Ok_0);
            }
        }
    }
    assert(token_views(result@) + Seq::<TokenView>::empty() =~= token_views(result@));
    Ok(result)
}

/// Whether the character is ASCII white space.
fn is_space_char(c: char) -> (r: bool)
    ensures
        r == is_space(c),
{
    matches!(c, ' ' | '\t' | '\n' | '\x0C' | '\r')
}

/// Whether the byte is a digit or a decimal point.
fn is_literal_byte(b: u8) -> (r: bool)
    ensures
        r == is_literal_char(b as char),
{
    matches!(b as char, '0'..='9' | '.')
}

/// Whether the byte is a lowercase letter or a hyphen.
fn is_name_byte(b: u8) -> (r: bool)
    ensures
        r == is_name_char(b as char),
{
    matches!(b as char, 'a'..='z' | '-')
}

} // verus!
