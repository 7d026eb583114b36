//! The parser: reads `let` and `return` statements from a token stream,
//! with one token of lookahead, and records what it expected but did not
//! find instead of stopping.

use crate::ast::{
    Identifier, IdentifierView, LetInternal, LetView, Program, ReturnInternal, ReturnView,
    Statement, StatementView,
};
use crate::lexer::{
    is_stream, lemma_after_token, lemma_exhaustion_is_stable, lemma_tokenize_is_stream, tokenize,
    Lexer,
};
use crate::token::{Kind, Token, TokenKind, TokenView};
use vstd::prelude::*;

verus! {

/// The token at index `i` of a stream; past the end, the end of input.
pub open spec fn token_at(tokens: Seq<TokenView>, i: int) -> TokenView {
    if i < tokens.len() {
        tokens[i]
    } else {
        tokens.last()
    }
}

/// The stream after `n` tokens have been taken from it. The last token, the
/// end of input, is never taken away.
pub open spec fn advanced(tokens: Seq<TokenView>, n: int) -> Seq<TokenView> {
    if n < tokens.len() {
        tokens.skip(n)
    } else {
        tokens.skip(tokens.len() - 1)
    }
}

/// Whether a token of kind `actual` is what a request for `expected` asks
/// for: any identifier where an identifier is asked for, the very kind
/// otherwise.
pub open spec fn matches_kind(actual: Kind, expected: Kind) -> bool {
    if expected is Ident {
        actual is Ident
    } else {
        actual == expected
    }
}

/// The kind that stands for "an identifier" where one is asked for.
pub open spec fn some_identifier() -> Kind {
    Kind::Ident("/*something*/"@)
}

/// The diagnostic for a token of kind `actual` where `expected` was asked
/// for.
pub open spec fn expectation_error(expected: Kind, actual: Kind) -> Seq<char> {
    "expected next token to be "@ + expected.name() + ", got "@ + actual.name() + " instead"@
}

/// The index of the first token at or after `from` that ends a statement: a
/// semicolon, or the end of input.
pub open spec fn statement_end(tokens: Seq<TokenView>, from: int) -> int
    decreases tokens.len() - from,
{
    if from + 1 >= tokens.len() || tokens[from].kind is Semicolon || tokens[from].kind is Eof {
        from
    } else {
        statement_end(tokens, from + 1)
    }
}

/// What reading one statement at the head of a stream gives.
pub struct Step {
    /// The statement, if one was read whole.
    pub statement: Option<StatementView>,
    /// The diagnostic, if a token was not the expected one.
    pub error: Option<Seq<char>>,
    /// How many tokens are taken before the next statement is read.
    pub resume: int,
}

/// Reads `let`, a name, `=`, and then anything up to the end of the
/// statement. The initializer is not kept.
pub open spec fn let_statement(tokens: Seq<TokenView>) -> Step {
    if !(token_at(tokens, 1).kind is Ident) {
        Step {
            statement: None,
            error: Some(expectation_error(some_identifier(), token_at(tokens, 1).kind)),
            resume: 1,
        }
    } else if !(token_at(tokens, 2).kind is Assign) {
        Step {
            statement: None,
            error: Some(expectation_error(Kind::Assign, token_at(tokens, 2).kind)),
            resume: 2,
        }
    } else {
        Step {
            statement: Some(
                StatementView::Let(
                    LetView {
                        token: tokens[0],
                        name: Some(
                            IdentifierView {
                                token: token_at(tokens, 1),
                                value: token_at(tokens, 1).literal,
                            },
                        ),
                        has_value: false,
                    },
                ),
            ),
            error: None,
            resume: statement_end(tokens, 2) + 1,
        }
    }
}

/// Reads `return` and then anything up to the end of the statement. The
/// returned expression is not kept.
pub open spec fn return_statement(tokens: Seq<TokenView>) -> Step {
    Step {
        statement: Some(StatementView::Return(ReturnView { token: tokens[0], has_value: false })),
        error: None,
        resume: statement_end(tokens, 1) + 1,
    }
}

/// Reads the statement at the head of a stream: a `let` or a `return`
/// statement where the stream begins with that keyword; any other token is
/// passed over.
pub open spec fn statement(tokens: Seq<TokenView>) -> Step {
    match tokens[0].kind {
        Kind::Let => let_statement(tokens),
        Kind::Return => return_statement(tokens),
        _ => Step { statement: None, error: None, resume: 1 },
    }
}

/// What parsing gives: the statements and the diagnostics, each in the
/// order in which they came up.
pub struct Parsed {
    pub statements: Seq<StatementView>,
    pub errors: Seq<Seq<char>>,
}

/// A statement ends at or after the index from which its end is sought, and
/// inside the stream.
pub proof fn lemma_statement_end_bounds(tokens: Seq<TokenView>, from: int)
    ensures
        from <= statement_end(tokens, from),
        from < tokens.len() ==> statement_end(tokens, from) < tokens.len(),
    decreases tokens.len() - from,
{
    if !(from + 1 >= tokens.len() || tokens[from].kind is Semicolon || tokens[from].kind is Eof) {
        lemma_statement_end_bounds(tokens, from + 1);
    }
}

/// Parses a whole stream: reads statement after statement until the end of
/// input, keeps the statements that were read whole, and collects the
/// diagnostics of the others.
pub open spec fn parse(tokens: Seq<TokenView>) -> Parsed
    decreases tokens.len(),
{
    if tokens.len() <= 1 || tokens[0].kind is Eof {
        Parsed { statements: Seq::empty(), errors: Seq::empty() }
    } else {
        proof {
            lemma_statement_end_bounds(tokens, 1);
            lemma_statement_end_bounds(tokens, 2);
        }
        let step = statement(tokens);
        let rest = parse(advanced(tokens, step.resume));
        Parsed {
            statements: match step.statement {
                Some(statement) => seq![statement] + rest.statements,
                None => rest.statements,
            },
            errors: match step.error {
                Some(error) => seq![error] + rest.errors,
                None => rest.errors,
            },
        }
    }
}

/// Whether a statement is whole as the parser leaves it: a `let` statement
/// begins with `let` and binds a name read from an identifier token, a
/// `return` statement begins with `return`, and neither keeps an expression.
pub open spec fn is_whole(statement: StatementView) -> bool {
    match statement {
        StatementView::Let(binding) => {
            &&& binding.token.kind is Let
            &&& !binding.has_value
            &&& binding.name matches Some(name)
            &&& name.token.kind is Ident
            &&& name.wf()
        },
        StatementView::Return(returning) => returning.token.kind is Return && !returning.has_value,
        StatementView::Expression(_) => false,
    }
}

/// No half-formed statement reaches a program: every statement that parsing
/// gives is whole.
pub proof fn lemma_parsed_statements_are_whole(tokens: Seq<TokenView>)
    ensures
        forall|i: int|
            0 <= i < parse(tokens).statements.len() ==> is_whole(
                #[trigger] parse(tokens).statements[i],
            ),
    decreases tokens.len(),
{
    if !(tokens.len() <= 1 || tokens[0].kind is Eof) {
        lemma_statement_end_bounds(tokens, 1);
        lemma_statement_end_bounds(tokens, 2);
        let step = statement(tokens);
        let rest = parse(advanced(tokens, step.resume));
        lemma_parsed_statements_are_whole(advanced(tokens, step.resume));
        let all = parse(tokens).statements;
        assert forall|i: int| 0 <= i < all.len() implies is_whole(#[trigger] all[i]) by {
            if step.statement is Some && i > 0 {
                assert(all[i] == rest.statements[i - 1]);
            }
        }
    }
}

/// Whether a statement, if it is a `let` statement, binds the text of its
/// identifier token.
pub open spec fn binds_identifier_text(statement: StatementView) -> bool {
    match statement {
        StatementView::Let(binding) => binding.name matches Some(name) && name.token.kind
            == Kind::Ident(name.value),
        _ => true,
    }
}

/// In a stream of well-formed tokens, the name that a parsed `let`
/// statement binds is the text of its identifier token.
pub proof fn lemma_parsed_names_are_identifier_texts(tokens: Seq<TokenView>)
    requires
        forall|i: int| 0 <= i < tokens.len() ==> (#[trigger] tokens[i]).wf(),
    ensures
        forall|i: int|
            0 <= i < parse(tokens).statements.len() ==> binds_identifier_text(
                #[trigger] parse(tokens).statements[i],
            ),
    decreases tokens.len(),
{
    if !(tokens.len() <= 1 || tokens[0].kind is Eof) {
        lemma_statement_end_bounds(tokens, 1);
        lemma_statement_end_bounds(tokens, 2);
        let step = statement(tokens);
        let left = advanced(tokens, step.resume);
        let rest = parse(left);
        assert forall|i: int| 0 <= i < left.len() implies (#[trigger] left[i]).wf() by {
            if step.resume < tokens.len() {
                assert(left[i] == tokens[i + step.resume]);
            } else {
                assert(left[i] == tokens[i + tokens.len() - 1]);
            }
        }
        lemma_parsed_names_are_identifier_texts(left);
        let all = parse(tokens).statements;
        assert forall|i: int| 0 <= i < all.len() implies binds_identifier_text(
            #[trigger] all[i],
        ) by {
            if step.statement is Some {
                if i > 0 {
                    assert(all[i] == rest.statements[i - 1]);
                } else if tokens[0].kind is Let {
                    assert(token_at(tokens, 1).wf());
                }
            }
        }
    }
}

/// Taking `a` tokens and then `b` more is taking `a + b` tokens.
pub proof fn lemma_advanced_twice(tokens: Seq<TokenView>, a: int, b: int)
    requires
        tokens.len() >= 1,
        0 <= a,
        0 <= b,
    ensures
        advanced(advanced(tokens, a), b) == advanced(tokens, a + b),
        token_at(advanced(tokens, a), b) == token_at(tokens, a + b),
        advanced(tokens, a).len() >= 1,
        is_stream(tokens) ==> is_stream(advanced(tokens, a)),
{
    let first = advanced(tokens, a);
    assert(advanced(first, b) =~= advanced(tokens, a + b));
    if is_stream(tokens) {
        assert forall|i: int| 0 <= i < first.len() - 1 implies !((#[trigger] first[i]).kind is Eof) by {
            assert(first[i] == tokens[i + a]);
        }
    }
}

/// The end of a statement can be sought in what is left of a stream after
/// tokens have been taken from it.
pub proof fn lemma_statement_end_shift(tokens: Seq<TokenView>, taken: int, from: int)
    requires
        0 <= taken <= from < tokens.len(),
    ensures
        statement_end(tokens, from) == taken + statement_end(tokens.skip(taken), from - taken),
    decreases tokens.len() - from,
{
    let rest = tokens.skip(taken);
    assert(rest[from - taken] == tokens[from]);
    if !(from + 1 >= tokens.len() || tokens[from].kind is Semicolon || tokens[from].kind is Eof) {
        lemma_statement_end_shift(tokens, taken, from + 1);
    }
}

/// The texts of a sequence of strings.
pub open spec fn texts(strings: Seq<String>) -> Seq<Seq<char>> {
    Seq::new(strings.len(), |i: int| strings[i]@)
}

/// A parser as a mathematical value.
pub struct ParserView {
    /// The tokens that are still to be read, from the current one up to and
    /// including the end of input.
    pub tokens: Seq<TokenView>,
    /// The diagnostics recorded so far.
    pub errors: Seq<Seq<char>>,
}

/// The parser: a tokenizer, a window of two tokens over what it gives, and
/// the diagnostics recorded so far.
pub struct Parser {
    lex: Lexer,
    cur_token: Token,
    peek_token: Token,
    errors: Vec<String>,
}

impl View for Parser {
    type V = ParserView;

    closed spec fn view(&self) -> ParserView {
        ParserView {
            tokens: if self.cur_token@.kind is Eof {
                seq![self.cur_token@]
            } else if self.peek_token@.kind is Eof {
                seq![self.cur_token@, self.peek_token@]
            } else {
                seq![self.cur_token@, self.peek_token@] + tokenize(self.lex@)
            },
            errors: texts(self.errors@),
        }
    }
}

impl Parser {
    /// The tokenizer and both tokens of the window are well-formed, and the
    /// end of input, once in the window, is all that follows.
    pub closed spec fn wf(&self) -> bool {
        &&& self.lex.wf()
        &&& self.lex@.wf()
        &&& self.cur_token.wf()
        &&& self.peek_token.wf()
        &&& self.cur_token@.kind is Eof ==> self.peek_token@ == self.cur_token@
        &&& self.peek_token@.kind is Eof ==> self.lex@.token() == self.peek_token@
    }

    /// What a well-formed parser has still to read is a whole token stream,
    /// whose first token is well-formed.
    pub proof fn lemma_tokens_are_stream(&self)
        requires
            self.wf(),
        ensures
            is_stream(self@.tokens),
            self@.tokens[0].wf(),
            token_at(self@.tokens, 1).wf(),
    {
        if !(self.cur_token@.kind is Eof) && !(self.peek_token@.kind is Eof) {
            lemma_tokenize_is_stream(self.lex@);
            let rest = tokenize(self.lex@);
            let all = self@.tokens;
            assert forall|i: int| 0 <= i < all.len() - 1 implies !((#[trigger] all[i]).kind is Eof) by {
                if i >= 2 {
                    assert(all[i] == rest[i - 2]);
                }
            }
            assert(all.last() == rest.last());
        }
    }

    /// A parser over what `lex` gives, with the first two tokens in the
    /// window.
    pub fn new(lex: Lexer) -> (parser: Parser)
        requires
            lex.wf(),
        ensures
            parser.wf(),
            parser@.tokens == tokenize(lex@),
            parser@.errors == Seq::<Seq<char>>::empty(),
    {
        let mut lex = lex;
        let ghost first = lex@;
        proof {
            lex.lemma_view_is_wf();
        }
        let cur_token = lex.next_token();
        let ghost second = lex@;
        proof {
            lex.lemma_view_is_wf();
        }
        let peek_token = lex.next_token();
        proof {
            lex.lemma_view_is_wf();
            lemma_after_token(first);
            lemma_after_token(second);
            if first.token().kind is Eof {
                lemma_exhaustion_is_stable(first);
            }
            if second.token().kind is Eof {
                lemma_exhaustion_is_stable(second);
            }
            if !(first.token().kind is Eof) {
                assert(tokenize(first) == seq![first.token()] + tokenize(second));
                if !(second.token().kind is Eof) {
                    assert(tokenize(second) == seq![second.token()] + tokenize(lex@));
                    assert(seq![first.token(), second.token()] + tokenize(lex@) =~= seq![
                        first.token(),
                    ] + (seq![second.token()] + tokenize(lex@)));
                } else {
                    assert(seq![first.token(), second.token()] =~= seq![first.token()] + seq![
                        second.token(),
                    ]);
                }
            }
        }
        Parser { lex, cur_token, peek_token, errors: Vec::new() }
    }

    /// The diagnostics recorded so far, in the order in which they came up.
    pub fn errors(&self) -> (errors: &[String])
        ensures
            texts(errors@) == self@.errors,
    {
        self.errors.as_slice()
    }

    /// Records that the token after the current one is not of kind `t`.
    fn peek_error(&mut self, t: &TokenKind)
        requires
            old(self).wf(),
        ensures
            final(self).wf(),
            final(self)@.tokens == old(self)@.tokens,
            final(self)@.errors == old(self)@.errors.push(
                expectation_error(t@, token_at(old(self)@.tokens, 1).kind),
            ),
    {
        let mut msg = String::from_str("expected next token to be ");
        msg.append(t.to_string().as_str());
        msg.append(", got ");
        msg.append(self.peek_token.ttype.to_string().as_str());
        msg.append(" instead");
        self.errors.push(msg);
        proof {
            assert(texts(self.errors@) =~= texts(old(self).errors@).push(msg@));
        }
    }

    /// Moves the window one token forward: the token after the current one
    /// becomes the current one, and the tokenizer gives the one after it.
    fn next_token(&mut self)
        requires
            old(self).wf(),
        ensures
            final(self).wf(),
            final(self)@.tokens == advanced(old(self)@.tokens, 1),
            final(self)@.errors == old(self)@.errors,
    {
        let ghost before = self.lex@;
        let mut next = self.lex.next_token();
        core::mem::swap(&mut self.peek_token, &mut next);
        self.cur_token = next;
        proof {
            lemma_after_token(before);
            if before.token().kind is Eof {
                lemma_exhaustion_is_stable(before);
            }
            self.lex.lemma_view_is_wf();
            let was = old(self)@.tokens;
            let now = self@.tokens;
            if !(old(self).cur_token@.kind is Eof) {
                if !(old(self).peek_token@.kind is Eof) {
                    assert(tokenize(before) == if before.token().kind is Eof {
                        seq![before.token()]
                    } else {
                        seq![before.token()] + tokenize(before.after_token())
                    });
                }
                assert(now =~= was.skip(1));
            } else {
                assert(now =~= was.skip(0));
            }
        }
    }

    /// Whether the current token is what a request for `t` asks for.
    fn cur_token_is(&self, t: &TokenKind) -> (is: bool)
        ensures
            is == matches_kind(self@.tokens[0].kind, t@),
    {
        match t {
            TokenKind::IDENT(_) => matches!(self.cur_token.ttype, TokenKind::IDENT(_)),
            _ => self.cur_token.ttype == *t,
        }
    }

    /// Whether the token after the current one is what a request for `t`
    /// asks for.
    fn peek_token_is(&self, t: &TokenKind) -> (is: bool)
        requires
            self.wf(),
        ensures
            is == matches_kind(token_at(self@.tokens, 1).kind, t@),
    {
        match t {
            TokenKind::IDENT(_) => matches!(self.peek_token.ttype, TokenKind::IDENT(_)),
            _ => self.peek_token.ttype == *t,
        }
    }

    /// Moves on to the token after the current one if it is what a request
    /// for `t` asks for; records a diagnostic and stays otherwise.
    fn expect_peek(&mut self, t: &TokenKind) -> (found: bool)
        requires
            old(self).wf(),
        ensures
            final(self).wf(),
            found == matches_kind(token_at(old(self)@.tokens, 1).kind, t@),
            found ==> final(self)@.tokens == advanced(old(self)@.tokens, 1) && final(self)@.errors
                == old(self)@.errors,
            !found ==> final(self)@.tokens == old(self)@.tokens && final(self)@.errors == old(
                self,
            )@.errors.push(expectation_error(t@, token_at(old(self)@.tokens, 1).kind)),
    {
        if self.peek_token_is(t) {
            self.next_token();
            true
        } else {
            self.peek_error(t);
            false
        }
    }

    /// Moves on to the token that ends the statement: the next semicolon, or
    /// the end of input.
    fn skip_statement(&mut self)
        requires
            old(self).wf(),
        ensures
            final(self).wf(),
            final(self)@.tokens == advanced(
                old(self)@.tokens,
                statement_end(old(self)@.tokens, 0),
            ),
            final(self)@.errors == old(self)@.errors,
    {
        let ghost all = self@.tokens;
        let ghost mut taken: int = 0;
        proof {
            self.lemma_tokens_are_stream();
            assert(all.skip(0) =~= all);
        }
        while !self.cur_token_is(&TokenKind::SEMICOLON) && !self.cur_token_is(&TokenKind::EOF)
            invariant
                self.wf(),
                is_stream(all),
                0 <= taken < all.len(),
                self@.tokens == all.skip(taken),
                statement_end(all, taken) == statement_end(all, 0),
                self@.errors == old(self)@.errors,
            decreases all.len() - taken,
        {
            proof {
                assert(all.skip(taken)[0] == all[taken]);
                assert(taken + 1 < all.len());
                assert(all.skip(taken).skip(1) =~= all.skip(taken + 1));
                taken = taken + 1;
            }
            self.next_token();
        }
        proof {
            assert(all.skip(taken)[0] == all[taken]);
        }
    }

    /// Reads the `return` statement that begins at the current token.
    fn parse_return_statement(&mut self) -> (parsed: Option<Statement>)
        requires
            old(self).wf(),
            old(self)@.tokens[0].kind is Return,
        ensures
            final(self).wf(),
            parsed matches Some(s) && Some(s@) == return_statement(old(self)@.tokens).statement,
            final(self)@.tokens == advanced(
                old(self)@.tokens,
                return_statement(old(self)@.tokens).resume - 1,
            ),
            final(self)@.errors == old(self)@.errors,
    {
        let stmt = Statement::Return(ReturnInternal::init(self.cur_token.clone(), None));
        let ghost all = self@.tokens;
        proof {
            self.lemma_tokens_are_stream();
        }
        self.next_token();
        self.skip_statement();
        proof {
            lemma_statement_end_shift(all, 1, 1);
            lemma_statement_end_bounds(all, 1);
            lemma_advanced_twice(all, 1, statement_end(all.skip(1), 0));
        }
        Some(stmt)
    }

    /// Reads the `let` statement that begins at the current token, or
    /// records which token was missing.
    fn parse_let_statement(&mut self) -> (parsed: Option<Statement>)
        requires
            old(self).wf(),
            old(self)@.tokens[0].kind is Let,
        ensures
            final(self).wf(),
            (match parsed {
                Some(s) => Some(s@),
                None => None::<StatementView>,
            }) == let_statement(old(self)@.tokens).statement,
            final(self)@.tokens == advanced(
                old(self)@.tokens,
                let_statement(old(self)@.tokens).resume - 1,
            ),
            final(self)@.errors == match let_statement(old(self)@.tokens).error {
                Some(error) => old(self)@.errors.push(error),
                None => old(self)@.errors,
            },
    {
        let ghost all = self@.tokens;
        proof {
            self.lemma_tokens_are_stream();
            reveal_strlit("/*something*/");
            assert(all.skip(0) =~= all);
        }
        let mut internal = LetInternal::new(self.cur_token.clone(), None, None);

        if !self.expect_peek(&TokenKind::IDENT(String::from_str("/*something*/"))) {
            return None;
        }
        proof {
            lemma_advanced_twice(all, 1, 1);
            self.lemma_tokens_are_stream();
        }

        internal.change_name(
            Identifier::new(self.cur_token.clone(), self.cur_token.literal.clone()),
        );

        if !self.expect_peek(&TokenKind::ASSIGN) {
            return None;
        }
        proof {
            lemma_advanced_twice(all, 1, 1);
        }

        self.skip_statement();
        proof {
            lemma_statement_end_shift(all, 2, 2);
            lemma_statement_end_bounds(all, 2);
            lemma_advanced_twice(all, 2, statement_end(all.skip(2), 0));
        }

        Some(Statement::Let(internal))
    }

    /// Reads the statement that begins at the current token, if the token
    /// begins one.
    fn parse_statement(&mut self) -> (parsed: Option<Statement>)
        requires
            old(self).wf(),
        ensures
            final(self).wf(),
            (match parsed {
                Some(s) => Some(s@),
                None => None::<StatementView>,
            }) == statement(old(self)@.tokens).statement,
            final(self)@.tokens == advanced(
                old(self)@.tokens,
                statement(old(self)@.tokens).resume - 1,
            ),
            final(self)@.errors == match statement(old(self)@.tokens).error {
                Some(error) => old(self)@.errors.push(error),
                None => old(self)@.errors,
            },
    {
        proof {
            self.lemma_tokens_are_stream();
            assert(self@.tokens.skip(0) =~= self@.tokens);
        }
        match self.cur_token.ttype {
            TokenKind::LET => self.parse_let_statement(),
            TokenKind::RETURN => self.parse_return_statement(),
            _ => None,
        }
    }

    /// Parses everything up to the end of input. The result is always a
    /// program: a statement that cannot be read whole is left out, the
    /// reason is added to the diagnostics, and parsing goes on with the next
    /// token.
    pub fn parse_program(&mut self) -> (parsed: Option<Program>)
        requires
            old(self).wf(),
        ensures
            final(self).wf(),
            parsed matches Some(program) && program@ == parse(old(self)@.tokens).statements && (
            forall|i: int| 0 <= i < program@.len() ==> is_whole(#[trigger] program@[i])),
            final(self)@.errors == old(self)@.errors + parse(old(self)@.tokens).errors,
            final(self)@.tokens == advanced(old(self)@.tokens, old(self)@.tokens.len() - 1),
    {
        let mut program = Program::new();
        let ghost all = self@.tokens;
        let ghost mut taken: int = 0;
        proof {
            self.lemma_tokens_are_stream();
            assert(all.skip(0) =~= all);
        }

        while !self.cur_token_is(&TokenKind::EOF)
            invariant
                self.wf(),
                is_stream(all),
                0 <= taken < all.len(),
                self@.tokens == all.skip(taken),
                parse(all).statements == program@ + parse(self@.tokens).statements,
                old(self)@.errors + parse(all).errors == self@.errors + parse(
                    self@.tokens,
                ).errors,
            decreases self@.tokens.len(),
        {
            let ghost here = self@.tokens;
            let ghost step = statement(here);
            let ghost shown = program@;
            let ghost noted = self@.errors;
            proof {
                self.lemma_tokens_are_stream();
                lemma_statement_end_bounds(here, 1);
                lemma_statement_end_bounds(here, 2);
                lemma_advanced_twice(here, step.resume - 1, 1);
            }
            let stmt = self.parse_statement();

            if let Some(s) = stmt {
                program.statements.push(s);
            }
            self.next_token();
            proof {
                let rest = parse(self@.tokens);
                assert(program@ =~= match step.statement {
                    Some(statement) => shown.push(statement),
                    None => shown,
                });
                assert(program@ + rest.statements =~= shown + parse(here).statements);
                assert(self@.errors + rest.errors =~= noted + parse(here).errors);
                assert(all.skip(taken).len() == all.len() - taken);
                if step.resume < here.len() {
                    assert(here.skip(step.resume) =~= all.skip(taken + step.resume));
                    taken = taken + step.resume;
                } else {
                    assert(here.skip(here.len() - 1) =~= all.skip(all.len() - 1));
                    taken = all.len() - 1;
                }
            }
        }
        proof {
            assert(program@ + Seq::<StatementView>::empty() =~= program@);
            assert(self@.errors + Seq::<Seq<char>>::empty() =~= self@.errors);
            self.lemma_tokens_are_stream();
            assert(self@.tokens[0] == all[taken]);
            lemma_parsed_statements_are_whole(all);
        }
        Some(program)
    }
}

} // verus!
