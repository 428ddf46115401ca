//! What holds of the scanner, whatever the text.
use crate::lexer::diagnostic::Diagnostic;
use crate::lexer::rules::{
    all_well_formed, diagnostics_from, ends_input, is_digit_byte, is_word_byte, keyword,
    lemma_run_len, lemma_run_len_unique, lemma_step_advances, number_end, run_len, scan,
    scan_diagnostics, skip, step, tokens_from, word_token, Run, Step,
};
use crate::number::{fraction_part, is_decimal, is_digit, point, whole_part};
use crate::text::{bytes_of, chars_of};
use crate::token::{TokenKind, TokenView};
use vstd::prelude::*;

verus! {

/// The text that a number step matches is decimal text.
proof fn lemma_number_is_decimal(src: Seq<u8>, at: int)
    requires
        0 <= at < src.len(),
        is_digit_byte(src[at]),
    ensures
        is_decimal(chars_of(src.subrange(at, number_end(src, at)))),
{
    let whole = at + 1 + run_len(src, at + 1, Run::Digits);
    let end = number_end(src, at);
    lemma_run_len(src, at + 1, Run::Digits);
    if whole + 1 <= src.len() {
        lemma_run_len(src, whole + 1, Run::Digits);
    }
    let text = chars_of(src.subrange(at, end));
    assert forall|i: int| 0 <= i < text.len() && at + i != whole implies is_digit(
        #[trigger] text[i],
    ) by {
        assert(is_digit_byte(src[at + i]));
    }
    text.index_of_first_ensures('.');
    if end == whole {
        assert(!text.contains('.')) by {
            if text.contains('.') {
                let i = choose|i: int| 0 <= i < text.len() && text[i] == '.';
                assert(is_digit(text[i]));
            }
        }
        assert(whole_part(text) =~= text);
    } else {
        let p = whole - at;
        assert(text[p] == '.');
        assert(text.contains('.'));
        let first = text.index_of_first('.')->0;
        if first < p {
            assert(is_digit(text[first]));
        }
        assert(first == p);
        assert forall|i: int| 0 <= i < whole_part(text).len() implies is_digit(
            #[trigger] whole_part(text)[i],
        ) by {
            assert(whole_part(text)[i] == text[i]);
        }
        assert forall|i: int| 0 <= i < fraction_part(text).len() implies is_digit(
            #[trigger] fraction_part(text)[i],
        ) by {
            assert(fraction_part(text)[i] == text[p + 1 + i]);
        }
    }
}

/// The token of a step is never the end-of-input token, and it is well formed.
pub(crate) proof fn lemma_step_token(src: Seq<u8>, at: int)
    requires
        0 <= at < src.len(),
    ensures
        step(src, at).token matches Some(token) ==> token.kind != TokenKind::EOF
            && token.well_formed(),
{
    if is_digit_byte(src[at]) {
        lemma_number_is_decimal(src, at);
    }
}

/// Whatever the text, and from whatever offset, the scanner's tokens are not empty,
/// the last of them is the end-of-input token, and no other is.
pub proof fn law_scan_ends_input(src: Seq<u8>, at: int)
    ensures
        ends_input(tokens_from(src, at)),
    decreases src.len() - at,
{
    if 0 <= at < src.len() {
        let s = step(src, at);
        lemma_step_advances(src, at);
        lemma_step_token(src, at);
        law_scan_ends_input(src, s.next);
    }
}

/// Every token that the scanner emits is well formed: the text of each number is
/// decimal text.
pub proof fn law_scan_well_formed(src: Seq<u8>, at: int)
    ensures
        all_well_formed(tokens_from(src, at)),
    decreases src.len() - at,
{
    if 0 <= at < src.len() {
        let s = step(src, at);
        lemma_step_advances(src, at);
        lemma_step_token(src, at);
        law_scan_well_formed(src, s.next);
    }
}

/// The lexeme of a token is what stands in the source: the bytes that a step
/// consumes for a token are those of the token's lexeme.
pub proof fn law_token_spans_its_lexeme(src: Seq<u8>, at: int)
    requires
        0 <= at < src.len(),
    ensures
        step(src, at).token matches Some(token) ==> bytes_of(token.lexeme()) == src.subrange(
            at,
            step(src, at).next,
        ),
{
    reveal_strlit("(");
    reveal_strlit(")");
    reveal_strlit("{");
    reveal_strlit("}");
    reveal_strlit(",");
    reveal_strlit(".");
    reveal_strlit("-");
    reveal_strlit("+");
    reveal_strlit(";");
    reveal_strlit("/");
    reveal_strlit("*");
    reveal_strlit("!");
    reveal_strlit("!=");
    reveal_strlit("=");
    reveal_strlit("==");
    reveal_strlit(">");
    reveal_strlit(">=");
    reveal_strlit("<");
    reveal_strlit("<=");
    lemma_step_advances(src, at);
    match step(src, at).token {
        Some(token) => {
            let next = step(src, at).next;
            let consumed = src.subrange(at, next);
            if token.kind == TokenKind::String {
                let inner = src.subrange(at + 1, next - 1);
                lemma_run_len(src, at + 1, Run::Text);
                assert(bytes_of(chars_of(inner)) =~= inner);
                assert(token.text == chars_of(inner));
                assert(bytes_of(token.lexeme()) =~= consumed) by {
                    let written = bytes_of(token.lexeme());
                    assert(written.len() == consumed.len());
                    assert forall|i: int| 0 <= i < written.len() implies written[i]
                        == consumed[i] by {
                        if 0 < i < written.len() - 1 {
                            assert(token.lexeme()[i] == token.text[i - 1]);
                            assert(consumed[i] == inner[i - 1]);
                        }
                    }
                }
            } else if is_digit_byte(src[at]) {
                assert(bytes_of(chars_of(consumed)) =~= consumed);
            } else if is_word_byte(src[at]) {
                let text = chars_of(consumed);
                assert(bytes_of(text) =~= consumed);
                assert(token == word_token(text));
                assert(token.lexeme() == text);
            } else {
                assert(consumed[0] == src[at]);
                if next == at + 2 {
                    assert(consumed[1] == src[at + 1]);
                }
                assert(bytes_of(token.lexeme()) =~= consumed);
            }
        },
        None => {},
    }
}

/// A character that a byte can stand for.
pub open spec fn is_byte(c: char) -> bool {
    0 <= (c as int) < 256
}

/// Whether `token` can be written down so that the scanner reads it back: it is not
/// the end-of-input token; the text of an identifier is a word that is no keyword,
/// the text of a number is decimal text, the text of a string holds no double quote
/// and nothing that a byte cannot stand for; and any other token carries no text.
pub open spec fn spellable(token: TokenView) -> bool {
    match token.kind {
        TokenKind::EOF => false,
        TokenKind::Identifier => {
            &&& token.text.len() > 0
            &&& forall|i: int|
                0 <= i < token.text.len() ==> is_byte(#[trigger] token.text[i]) && is_word_byte(
                    token.text[i] as u8,
                )
            &&& keyword(token.text) is None
        },
        TokenKind::Number => is_decimal(token.text),
        TokenKind::String => forall|i: int|
            0 <= i < token.text.len() ==> is_byte(#[trigger] token.text[i]) && token.text[i] != '"',
        _ => token.text == Seq::<char>::empty(),
    }
}

/// The source text for a sequence of tokens: the lexeme of each, with one space
/// behind it.
pub open spec fn spell(tokens: Seq<TokenView>) -> Seq<u8>
    decreases tokens.len(),
{
    if tokens.len() == 0 {
        Seq::empty()
    } else {
        bytes_of(tokens[0].lexeme()) + seq![' ' as u8] + spell(tokens.skip(1))
    }
}

/// The kinds of the reserved words.
pub open spec fn is_reserved(kind: TokenKind) -> bool {
    ||| kind == TokenKind::And
    ||| kind == TokenKind::Class
    ||| kind == TokenKind::Else
    ||| kind == TokenKind::False
    ||| kind == TokenKind::For
    ||| kind == TokenKind::Fun
    ||| kind == TokenKind::If
    ||| kind == TokenKind::Nil
    ||| kind == TokenKind::Or
    ||| kind == TokenKind::Print
    ||| kind == TokenKind::Return
    ||| kind == TokenKind::Super
    ||| kind == TokenKind::This
    ||| kind == TokenKind::True
    ||| kind == TokenKind::Var
    ||| kind == TokenKind::While
}

/// The step on the lexeme of an operator or a punctuation mark.
proof fn lemma_step_mark(src: Seq<u8>, at: int, kind: TokenKind)
    requires
        !kind.carries_text(),
        kind != TokenKind::EOF,
        !is_reserved(kind),
        0 <= at,
        at + kind.lexeme_spec().len() < src.len(),
        src.subrange(at, at + kind.lexeme_spec().len()) == bytes_of(kind.lexeme_spec()),
        src[at + kind.lexeme_spec().len()] == ' ' as u8,
    ensures
        kind.lexeme_spec().len() > 0,
        step(src, at) == (Step {
            next: at + kind.lexeme_spec().len(),
            token: Some(TokenView::plain(kind)),
            error: None,
        }),
{
    reveal_strlit("(");
    reveal_strlit(")");
    reveal_strlit("{");
    reveal_strlit("}");
    reveal_strlit(",");
    reveal_strlit(".");
    reveal_strlit("-");
    reveal_strlit("+");
    reveal_strlit(";");
    reveal_strlit("/");
    reveal_strlit("*");
    reveal_strlit("!");
    reveal_strlit("!=");
    reveal_strlit("=");
    reveal_strlit("==");
    reveal_strlit(">");
    reveal_strlit(">=");
    reveal_strlit("<");
    reveal_strlit("<=");
    let lexeme = kind.lexeme_spec();
    let written = src.subrange(at, at + lexeme.len());
    assert(written[0] == src[at]);
    if lexeme.len() > 1 {
        assert(written[1] == src[at + 1]);
    }
}

/// The step on a reserved word.
proof fn lemma_step_reserved(src: Seq<u8>, at: int, kind: TokenKind)
    requires
        is_reserved(kind),
        0 <= at,
        at + kind.lexeme_spec().len() < src.len(),
        src.subrange(at, at + kind.lexeme_spec().len()) == bytes_of(kind.lexeme_spec()),
        src[at + kind.lexeme_spec().len()] == ' ' as u8,
    ensures
        kind.lexeme_spec().len() > 0,
        step(src, at) == (Step {
            next: at + kind.lexeme_spec().len(),
            token: Some(TokenView::plain(kind)),
            error: None,
        }),
{
    reveal_strlit("and");
    reveal_strlit("class");
    reveal_strlit("else");
    reveal_strlit("false");
    reveal_strlit("for");
    reveal_strlit("fun");
    reveal_strlit("if");
    reveal_strlit("nil");
    reveal_strlit("or");
    reveal_strlit("print");
    reveal_strlit("return");
    reveal_strlit("super");
    reveal_strlit("this");
    reveal_strlit("true");
    reveal_strlit("var");
    reveal_strlit("while");
    let lexeme = kind.lexeme_spec();
    let end = at + lexeme.len();
    let written = src.subrange(at, end);
    assert forall|i: int| at <= i < end implies is_word_byte(#[trigger] src[i]) && src[i]
        == lexeme[i - at] as u8 by {
        assert(written[i - at] == src[i]);
    }
    lemma_run_len_unique(src, at + 1, Run::Word, (lexeme.len() - 1) as nat);
    assert(chars_of(written) =~= lexeme);
}

/// The step on an identifier.
proof fn lemma_step_identifier(src: Seq<u8>, at: int, token: TokenView)
    requires
        token.kind == TokenKind::Identifier,
        spellable(token),
        0 <= at,
        at + token.text.len() < src.len(),
        src.subrange(at, at + token.text.len()) == bytes_of(token.text),
        src[at + token.text.len()] == ' ' as u8,
    ensures
        step(src, at) == (Step { next: at + token.text.len(), token: Some(token), error: None }),
{
    let text = token.text;
    let end = at + text.len();
    let written = src.subrange(at, end);
    assert forall|i: int| at <= i < end implies is_word_byte(#[trigger] src[i]) && src[i] as char
        == text[i - at] by {
        assert(written[i - at] == src[i]);
        assert(is_byte(text[i - at]));
    }
    lemma_run_len_unique(src, at + 1, Run::Word, (text.len() - 1) as nat);
    assert(chars_of(written) =~= text);
}

/// The step on a number.
proof fn lemma_step_number(src: Seq<u8>, at: int, token: TokenView)
    requires
        token.kind == TokenKind::Number,
        spellable(token),
        0 <= at,
        at + token.text.len() < src.len(),
        src.subrange(at, at + token.text.len()) == bytes_of(token.text),
        src[at + token.text.len()] == ' ' as u8,
    ensures
        token.text.len() > 0,
        step(src, at) == (Step { next: at + token.text.len(), token: Some(token), error: None }),
{
    let text = token.text;
    let end = at + text.len();
    let written = src.subrange(at, end);
    text.index_of_first_ensures('.');
    let p = point(text);
    assert forall|i: int| at <= i < end implies (#[trigger] src[i]) as char == text[i - at] && (i
        - at != p ==> is_digit_byte(src[i])) by {
        assert(written[i - at] == src[i]);
        if i - at < p {
            assert(is_digit(whole_part(text)[i - at]));
        } else if i - at > p {
            assert(is_digit(fraction_part(text)[i - at - p - 1]));
        }
    }
    assert(is_digit_byte(src[at]));
    lemma_run_len_unique(src, at + 1, Run::Digits, (p - 1) as nat);
    if p < text.len() {
        assert(is_digit(fraction_part(text)[0]));
        assert(is_digit_byte(src[at + p + 1]));
        lemma_run_len_unique(src, at + p + 1, Run::Digits, (text.len() - p - 1) as nat);
    }
    assert(number_end(src, at) == end);
    assert(chars_of(written) =~= text);
}

/// The step on a string.
proof fn lemma_step_string(src: Seq<u8>, at: int, token: TokenView)
    requires
        token.kind == TokenKind::String,
        spellable(token),
        0 <= at,
        at + token.lexeme().len() < src.len(),
        src.subrange(at, at + token.lexeme().len()) == bytes_of(token.lexeme()),
    ensures
        step(src, at) == (Step { next: at + token.lexeme().len(), token: Some(token), error: None }),
{
    let text = token.text;
    let lexeme = token.lexeme();
    let end = at + lexeme.len();
    let written = src.subrange(at, end);
    assert(written[0] == src[at]);
    assert(written[text.len() as int + 1] == src[at + text.len() + 1]);
    assert forall|i: int| at + 1 <= i < end - 1 implies Run::Text.holds(#[trigger] src[i])
        && src[i] as char == text[i - at - 1] by {
        assert(written[i - at] == src[i]);
        assert(is_byte(text[i - at - 1]));
    }
    lemma_run_len_unique(src, at + 1, Run::Text, text.len());
    assert(chars_of(src.subrange(at + 1, end - 1)) =~= text);
}

/// Where the lexeme of a spellable token stands at `at`, with a space behind it, the
/// step at `at` emits the token and stops at that space.
proof fn lemma_step_spelled(src: Seq<u8>, at: int, token: TokenView)
    requires
        spellable(token),
        0 <= at,
        at + token.lexeme().len() < src.len(),
        src.subrange(at, at + token.lexeme().len()) == bytes_of(token.lexeme()),
        src[at + token.lexeme().len()] == ' ' as u8,
    ensures
        token.lexeme().len() > 0,
        step(src, at) == (Step { next: at + token.lexeme().len(), token: Some(token), error: None }),
{
    match token.kind {
        TokenKind::Identifier => {
            lemma_step_identifier(src, at, token);
        },
        TokenKind::Number => {
            lemma_step_number(src, at, token);
        },
        TokenKind::String => {
            lemma_step_string(src, at, token);
        },
        _ => {
            assert(token == TokenView::plain(token.kind));
            if is_reserved(token.kind) {
                lemma_step_reserved(src, at, token.kind);
            } else {
                lemma_step_mark(src, at, token.kind);
            }
        },
    }
}

/// Where the spelling of `tokens` stands from `at` to the end of the text, the
/// scanner reads the tokens back from there, and reports nothing.
proof fn lemma_scan_spelled(src: Seq<u8>, at: int, tokens: Seq<TokenView>)
    requires
        forall|i: int| 0 <= i < tokens.len() ==> spellable(#[trigger] tokens[i]),
        0 <= at <= src.len(),
        src.subrange(at, src.len() as int) == spell(tokens),
    ensures
        tokens_from(src, at) == tokens.push(TokenView::plain(TokenKind::EOF)),
        diagnostics_from(src, at) == Seq::<Diagnostic>::empty(),
    decreases tokens.len(),
{
    let end = src.len() as int;
    if tokens.len() == 0 {
        assert(src.subrange(at, end).len() == 0);
        assert(tokens_from(src, at) =~= tokens.push(TokenView::plain(TokenKind::EOF)));
    } else {
        let token = tokens[0];
        let rest = tokens.skip(1);
        let lexeme = bytes_of(token.lexeme());
        let space = at + lexeme.len();
        let spelled = src.subrange(at, end);
        assert(spelled == lexeme + seq![' ' as u8] + spell(rest));
        assert(spelled[lexeme.len() as int] == ' ' as u8);
        assert(src[space] == spelled[lexeme.len() as int]);
        assert(src.subrange(at, space) =~= lexeme) by {
            assert forall|i: int| 0 <= i < lexeme.len() implies src.subrange(at, space)[i]
                == lexeme[i] by {
                assert(src[at + i] == spelled[i]);
            }
        }
        assert(src.subrange(space + 1, end) =~= spell(rest)) by {
            assert forall|i: int| 0 <= i < spell(rest).len() implies src.subrange(space + 1, end)[i]
                == spell(rest)[i] by {
                assert(src[space + 1 + i] == spelled[lexeme.len() + 1 + i]);
            }
        }
        lemma_step_spelled(src, at, token);
        assert(step(src, space) == skip(space + 1));
        assert forall|i: int| 0 <= i < rest.len() implies spellable(#[trigger] rest[i]) by {
            assert(rest[i] == tokens[i + 1]);
        }
        lemma_scan_spelled(src, space + 1, rest);
        assert(tokens_from(src, space) == tokens_from(src, space + 1));
        assert(diagnostics_from(src, space) == diagnostics_from(src, space + 1));
        assert(tokens_from(src, at) =~= tokens.push(TokenView::plain(TokenKind::EOF)));
    }
}

/// Reading back: the scanner turns the spelling of spellable tokens into those
/// tokens, followed by the end-of-input token, and reports nothing.
pub proof fn law_scan_reads_back(tokens: Seq<TokenView>)
    requires
        forall|i: int| 0 <= i < tokens.len() ==> spellable(#[trigger] tokens[i]),
    ensures
        scan(spell(tokens)) == tokens.push(TokenView::plain(TokenKind::EOF)),
        scan_diagnostics(spell(tokens)) == Seq::<Diagnostic>::empty(),
{
    let src = spell(tokens);
    assert(src.subrange(0, src.len() as int) =~= src);
    lemma_scan_spelled(src, 0, tokens);
}

} // verus!
