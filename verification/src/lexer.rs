//! The tokenizer: turns source text into tokens, one per call, and keeps
//! track of the line and column at which each token starts.

use crate::text::{
    all_digits, decimal_value, lemma_decimal_value_nonnegative, lemma_run_end_bounds,
    lemma_run_end_from_inside, lemma_run_is_maximal, lemma_suffix_value, parse_decimal, run_end,
    scan_run, string_of, trim, trimmed, CharClass,
};
use crate::token::{
    keyword, keyword_at, word_kind, Kind, Location, Position, Token, TokenKind, TokenView,
};
use vstd::prelude::*;

verus! {

/// The line of the character at index `at`, counted from 1: one more than
/// the number of newlines before it.
pub open spec fn line_at(chars: Seq<char>, at: int) -> nat
    decreases at,
{
    if at <= 0 {
        1
    } else if chars[at - 1] == '\n' {
        line_at(chars, at - 1) + 1
    } else {
        line_at(chars, at - 1)
    }
}

/// The column of the character at index `at`, counted from 1: one more than
/// the number of characters between it and the newline before it, or the
/// beginning of the text.
pub open spec fn column_at(chars: Seq<char>, at: int) -> nat
    decreases at,
{
    if at <= 0 {
        1
    } else if chars[at - 1] == '\n' {
        1
    } else {
        column_at(chars, at - 1) + 1
    }
}

/// The index at which the line that holds index `at` begins.
pub open spec fn line_start(chars: Seq<char>, at: int) -> int
    decreases at,
{
    if at <= 0 {
        0
    } else if chars[at - 1] == '\n' {
        at
    } else {
        line_start(chars, at - 1)
    }
}

/// Whether the character after the one at `at` is `=`.
pub open spec fn followed_by_equals(chars: Seq<char>, at: int) -> bool {
    at + 1 < chars.len() && chars[at + 1] == '='
}

/// The operator or delimiter that begins with `c`, if any; `doubled` says
/// whether `c` is directly followed by `=`.
pub open spec fn symbol(c: char, doubled: bool) -> Option<Kind> {
    if c == '=' {
        if doubled {
            Some(Kind::Equal)
        } else {
            Some(Kind::Assign)
        }
    } else if c == '!' {
        if doubled {
            Some(Kind::NotEqual)
        } else {
            Some(Kind::Bang)
        }
    } else if c == ';' {
        Some(Kind::Semicolon)
    } else if c == '(' {
        Some(Kind::LParen)
    } else if c == ')' {
        Some(Kind::RParen)
    } else if c == ',' {
        Some(Kind::Comma)
    } else if c == '+' {
        Some(Kind::Plus)
    } else if c == '{' {
        Some(Kind::LBrace)
    } else if c == '}' {
        Some(Kind::RBrace)
    } else if c == '-' {
        Some(Kind::Minus)
    } else if c == '*' {
        Some(Kind::Asterisk)
    } else if c == '/' {
        Some(Kind::Slash)
    } else if c == '<' {
        Some(Kind::LessThan)
    } else if c == '>' {
        Some(Kind::GreaterThan)
    } else {
        None
    }
}

/// The kind of the token that starts at index `start`, which is either the
/// end of the text or a character that is not a separator.
pub open spec fn kind_at(chars: Seq<char>, start: int) -> Kind {
    if start >= chars.len() {
        Kind::Eof
    } else {
        match symbol(chars[start], followed_by_equals(chars, start)) {
            Some(kind) => kind,
            None => if CharClass::Word.contains(chars[start]) {
                word_kind(chars.subrange(start, run_end(chars, start, CharClass::Word)))
            } else if CharClass::Digit.contains(chars[start]) {
                Kind::Int(
                    decimal_value(chars.subrange(start, run_end(chars, start, CharClass::Digit))),
                )
            } else {
                Kind::Illegal
            },
        }
    }
}

/// The index just past the token that starts at index `start`.
pub open spec fn end_at(chars: Seq<char>, start: int) -> int {
    if start >= chars.len() {
        start
    } else {
        match symbol(chars[start], followed_by_equals(chars, start)) {
            Some(kind) => if kind is Equal || kind is NotEqual {
                start + 2
            } else {
                start + 1
            },
            None => if CharClass::Word.contains(chars[start]) {
                run_end(chars, start, CharClass::Word)
            } else if CharClass::Digit.contains(chars[start]) {
                run_end(chars, start, CharClass::Digit)
            } else {
                start + 1
            },
        }
    }
}

/// The literal of the token that starts at index `start`: the digits as
/// written for an integer, the canonical spelling for every other kind.
pub open spec fn literal_at(chars: Seq<char>, start: int) -> Seq<char> {
    if kind_at(chars, start) is Int {
        chars.subrange(start, end_at(chars, start))
    } else {
        kind_at(chars, start).spelling()
    }
}

/// Whether every run of digits in `chars`, read from any of its digits to
/// its end, is a number that an `i128` can hold.
pub open spec fn integers_fit(chars: Seq<char>) -> bool {
    forall|i: int|
        0 <= i < chars.len() && CharClass::Digit.contains(chars[i]) ==> decimal_value(
            chars.subrange(i, #[trigger] run_end(chars, i, CharClass::Digit)),
        ) <= i128::MAX
}

/// A tokenizer as a mathematical value: the text, the cursor, and the mode.
pub struct LexerView {
    /// The text, trimmed.
    pub chars: Seq<char>,
    /// The index of the next character to read.
    pub pos: int,
    /// In interactive mode tokens carry no location.
    pub interactive: bool,
    /// The name of the source that locations refer to.
    pub path: Option<Seq<char>>,
}

impl LexerView {
    /// The cursor is inside the text or at its end, a source name is there
    /// unless the mode is interactive, and every integer in the text fits.
    pub open spec fn wf(self) -> bool {
        &&& 0 <= self.pos <= self.chars.len()
        &&& !self.interactive ==> self.path is Some
        &&& integers_fit(self.chars)
    }

    /// Where the next token starts: the cursor, moved past separators.
    pub open spec fn token_start(self) -> int {
        run_end(self.chars, self.pos, CharClass::Space)
    }

    /// The index just past the next token.
    pub open spec fn token_end(self) -> int {
        end_at(self.chars, self.token_start())
    }

    /// The location that a token starting at index `at` carries.
    pub open spec fn location_of(self, at: int) -> Option<Position> {
        if self.interactive {
            None
        } else {
            match self.path {
                Some(source) => Some(
                    Position {
                        line: line_at(self.chars, at),
                        column: column_at(self.chars, at),
                        source,
                    },
                ),
                None => None,
            }
        }
    }

    /// The next token.
    pub open spec fn token(self) -> TokenView {
        TokenView {
            kind: kind_at(self.chars, self.token_start()),
            literal: literal_at(self.chars, self.token_start()),
            location: self.location_of(self.token_start()),
        }
    }

    /// The tokenizer after the next token has been taken.
    pub open spec fn after_token(self) -> LexerView {
        LexerView { pos: self.token_end(), ..self }
    }
}

/// A token is the end of input exactly when it starts at the end of the
/// text.
pub proof fn lemma_eof_only_at_end(chars: Seq<char>, start: int)
    requires
        0 <= start <= chars.len(),
    ensures
        kind_at(chars, start) is Eof <==> start == chars.len(),
{
}

/// Every token but the end of input is at least one character long and ends
/// inside the text; the end of input is empty.
pub proof fn lemma_token_extent(chars: Seq<char>, start: int)
    requires
        0 <= start <= chars.len(),
    ensures
        start <= end_at(chars, start) <= chars.len(),
        kind_at(chars, start) is Eof <==> end_at(chars, start) == start,
{
    if start < chars.len() {
        lemma_run_end_bounds(chars, start, CharClass::Word);
        lemma_run_end_bounds(chars, start, CharClass::Digit);
        lemma_run_end_bounds(chars, start + 1, CharClass::Word);
        lemma_run_end_bounds(chars, start + 1, CharClass::Digit);
    }
}

/// Taking a token keeps a tokenizer well-formed and never moves the cursor
/// back; the cursor moves forward unless the token is the end of input.
pub proof fn lemma_after_token(lexer: LexerView)
    requires
        lexer.wf(),
    ensures
        lexer.after_token().wf(),
        lexer.pos <= lexer.token_start() <= lexer.token_end(),
        !(lexer.token().kind is Eof) ==> lexer.pos < lexer.after_token().pos,
        lexer.token().kind is Eof ==> lexer.after_token().pos == lexer.chars.len(),
{
    lemma_run_end_bounds(lexer.chars, lexer.pos, CharClass::Space);
    lemma_token_extent(lexer.chars, lexer.token_start());
}

/// Every token that a tokenizer gives is well-formed: a token of a fixed
/// kind, or an identifier, is written in its canonical spelling, wherever in
/// the text and after whatever separators it stands; an integer is written
/// as its digits.
pub proof fn lemma_token_is_wf(lexer: LexerView)
    requires
        lexer.wf(),
    ensures
        lexer.token().wf(),
        lexer.token().kind.is_fixed() ==> lexer.token().literal == lexer.token().kind.spelling(),
{
    let start = lexer.token_start();
    lemma_run_end_bounds(lexer.chars, lexer.pos, CharClass::Space);
    lemma_place_bounds(lexer.chars, start);
    if kind_at(lexer.chars, start) is Int {
        lemma_run_end_bounds(lexer.chars, start, CharClass::Digit);
        lemma_run_is_maximal(lexer.chars, start, CharClass::Digit);
        let digits = lexer.chars.subrange(start, run_end(lexer.chars, start, CharClass::Digit));
        assert(all_digits(digits));
    }
}

/// A word is taken whole: an identifier or keyword token covers a maximal
/// run of word characters, so it is never split in two, and it is a keyword
/// exactly when the run spells one.
pub proof fn lemma_word_is_maximal(lexer: LexerView)
    requires
        lexer.wf(),
        lexer.token().kind is Ident || lexer.token().kind.is_keyword(),
    ensures
        lexer.token_start() < lexer.token_end() <= lexer.chars.len(),
        forall|i: int|
            lexer.token_start() <= i < lexer.token_end() ==> CharClass::Word.contains(
                #[trigger] lexer.chars[i],
            ),
        lexer.token_end() < lexer.chars.len() ==> !CharClass::Word.contains(
            lexer.chars[lexer.token_end()],
        ),
        lexer.token().kind == word_kind(
            lexer.chars.subrange(lexer.token_start(), lexer.token_end()),
        ),
        lexer.token().kind is Ident <==> keyword(
            lexer.chars.subrange(lexer.token_start(), lexer.token_end()),
        ) is None,
{
    let start = lexer.token_start();
    lemma_run_end_bounds(lexer.chars, lexer.pos, CharClass::Space);
    lemma_run_end_bounds(lexer.chars, start, CharClass::Word);
    lemma_run_is_maximal(lexer.chars, start, CharClass::Word);
}

/// An integer is taken whole: an integer token covers a maximal run of
/// digits, is written as that run, and has its value.
pub proof fn lemma_integer_is_maximal(lexer: LexerView)
    requires
        lexer.wf(),
        lexer.token().kind is Int,
    ensures
        lexer.token_start() < lexer.token_end() <= lexer.chars.len(),
        forall|i: int|
            lexer.token_start() <= i < lexer.token_end() ==> CharClass::Digit.contains(
                #[trigger] lexer.chars[i],
            ),
        lexer.token_end() < lexer.chars.len() ==> !CharClass::Digit.contains(
            lexer.chars[lexer.token_end()],
        ),
        lexer.token().literal == lexer.chars.subrange(lexer.token_start(), lexer.token_end()),
        lexer.token().kind == Kind::Int(decimal_value(lexer.token().literal)),
        0 <= decimal_value(lexer.token().literal) <= i128::MAX,
{
    let start = lexer.token_start();
    lemma_run_end_bounds(lexer.chars, lexer.pos, CharClass::Space);
    lemma_run_end_bounds(lexer.chars, start, CharClass::Digit);
    lemma_run_is_maximal(lexer.chars, start, CharClass::Digit);
    let digits = lexer.chars.subrange(start, run_end(lexer.chars, start, CharClass::Digit));
    assert(all_digits(digits));
    lemma_decimal_value_nonnegative(digits);
}

/// `=` and `!` join with a directly following `=` into one token of two
/// characters; followed by anything else they are a token of their own, and
/// the next token is read from the character after them.
pub proof fn lemma_doubling(lexer: LexerView)
    requires
        lexer.wf(),
        lexer.token_start() < lexer.chars.len(),
        lexer.chars[lexer.token_start()] == '=' || lexer.chars[lexer.token_start()] == '!',
    ensures
        lexer.token().kind == if lexer.chars[lexer.token_start()] == '=' {
            if followed_by_equals(lexer.chars, lexer.token_start()) {
                Kind::Equal
            } else {
                Kind::Assign
            }
        } else {
            if followed_by_equals(lexer.chars, lexer.token_start()) {
                Kind::NotEqual
            } else {
                Kind::Bang
            }
        },
        lexer.after_token().pos == if followed_by_equals(lexer.chars, lexer.token_start()) {
            lexer.token_start() + 2
        } else {
            lexer.token_start() + 1
        },
{
}

/// A column is one more than the offset in the line: the number of
/// characters between the place and the beginning of its line, which is the
/// beginning of the text or follows the nearest newline before the place.
pub proof fn lemma_column_is_offset_in_line(chars: Seq<char>, at: int)
    requires
        0 <= at <= chars.len(),
    ensures
        0 <= line_start(chars, at) <= at,
        column_at(chars, at) == at - line_start(chars, at) + 1,
        line_start(chars, at) > 0 ==> chars[line_start(chars, at) - 1] == '\n',
        forall|i: int| line_start(chars, at) <= i < at ==> chars[i] != '\n',
    decreases at,
{
    if at > 0 && chars[at - 1] != '\n' {
        lemma_column_is_offset_in_line(chars, at - 1);
    }
}

/// The line of a place is one more than the number of newlines before it;
/// on the first line, the column is one more than the index.
pub proof fn lemma_first_line(chars: Seq<char>, at: int)
    requires
        0 <= at <= chars.len(),
        forall|i: int| 0 <= i < at ==> chars[i] != '\n',
    ensures
        line_at(chars, at) == 1,
        column_at(chars, at) == at + 1,
    decreases at,
{
    if at > 0 {
        lemma_first_line(chars, at - 1);
    }
}

/// Once the end of input has been reached it stays: the same token comes
/// again, with an empty literal, and the tokenizer no longer changes.
pub proof fn lemma_exhaustion_is_stable(lexer: LexerView)
    requires
        lexer.wf(),
        lexer.token().kind is Eof,
    ensures
        lexer.token().literal == Seq::<char>::empty(),
        lexer.after_token().token() == lexer.token(),
        lexer.after_token().after_token() == lexer.after_token(),
{
    reveal_strlit("");
    lemma_after_token(lexer);
    lemma_eof_only_at_end(lexer.chars, lexer.token_start());
}

/// The tokens that a tokenizer gives, up to and including the first end of
/// input.
pub open spec fn tokenize(lexer: LexerView) -> Seq<TokenView>
    decreases lexer.chars.len() - lexer.pos,
    when lexer.wf()
{
    if lexer.token().kind is Eof {
        seq![lexer.token()]
    } else {
        proof {
            lemma_after_token(lexer);
        }
        seq![lexer.token()] + tokenize(lexer.after_token())
    }
}

/// Whether `tokens` is a whole token stream: it ends with the end of input,
/// which occurs nowhere else in it.
pub open spec fn is_stream(tokens: Seq<TokenView>) -> bool {
    &&& tokens.len() >= 1
    &&& tokens.last().kind is Eof
    &&& forall|i: int| 0 <= i < tokens.len() - 1 ==> !((#[trigger] tokens[i]).kind is Eof)
}

/// What a tokenizer gives is a whole token stream of well-formed tokens.
pub proof fn lemma_tokenize_is_stream(lexer: LexerView)
    requires
        lexer.wf(),
    ensures
        is_stream(tokenize(lexer)),
        forall|i: int| 0 <= i < tokenize(lexer).len() ==> (#[trigger] tokenize(lexer)[i]).wf(),
    decreases lexer.chars.len() - lexer.pos,
{
    lemma_token_is_wf(lexer);
    if !(lexer.token().kind is Eof) {
        lemma_after_token(lexer);
        lemma_tokenize_is_stream(lexer.after_token());
        let rest = tokenize(lexer.after_token());
        let all = tokenize(lexer);
        assert(all == seq![lexer.token()] + rest);
        assert forall|i: int| 0 <= i < all.len() - 1 implies !((#[trigger] all[i]).kind is Eof) by {
            if i > 0 {
                assert(all[i] == rest[i - 1]);
            }
        }
        assert forall|i: int| 0 <= i < all.len() implies (#[trigger] all[i]).wf() by {
            if i > 0 {
                assert(all[i] == rest[i - 1]);
            }
        }
        assert(all.last() == rest.last());
    }
}

/// Lines and columns are positive and no larger than one more than the
/// index they belong to.
pub proof fn lemma_place_bounds(chars: Seq<char>, at: int)
    requires
        0 <= at,
    ensures
        1 <= line_at(chars, at) <= at + 1,
        1 <= column_at(chars, at) <= at + 1,
    decreases at,
{
    if at > 0 {
        lemma_place_bounds(chars, at - 1);
    }
}

/// Whether a text can be given to a tokenizer: its length leaves room for
/// the column after its last character, and every integer in it fits.
pub open spec fn lexable(chars: Seq<char>) -> bool {
    chars.len() < usize::MAX && integers_fit(chars)
}

/// Decides whether every run of digits in `text` is a number that an `i128`
/// can hold.
pub fn integers_in_range(text: &Vec<char>) -> (fit: bool)
    ensures
        fit == integers_fit(text@),
{
    let mut i: usize = 0;
    while i < text.len()
        invariant
            i <= text.len(),
            forall|j: int|
                0 <= j < i && CharClass::Digit.contains(text@[j]) ==> decimal_value(
                    text@.subrange(j, #[trigger] run_end(text@, j, CharClass::Digit)),
                ) <= i128::MAX,
        decreases text.len() - i,
    {
        if CharClass::Digit.has(text[i]) {
            let end = scan_run(text, i, CharClass::Digit);
            let ghost run = text@.subrange(i as int, end as int);
            proof {
                lemma_run_is_maximal(text@, i as int, CharClass::Digit);
                assert(all_digits(run));
            }
            if parse_decimal(text, i, end).is_none() {
                return false;
            }
            proof {
                assert forall|j: int|
                    i <= j < end && CharClass::Digit.contains(text@[j]) implies decimal_value(
                    text@.subrange(j, #[trigger] run_end(text@, j, CharClass::Digit)),
                ) <= i128::MAX by {
                    lemma_run_end_from_inside(text@, i as int, j, CharClass::Digit);
                    lemma_suffix_value(run, j - i);
                    assert(run.skip(j - i) == text@.subrange(j, end as int));
                }
            }
            i = end;
        } else {
            i += 1;
        }
    }
    true
}

/// The tokenizer: a cursor over the trimmed source text.
pub struct Lexer {
    input: Vec<char>,
    position: usize,
    curr_line: usize,
    curr_col: usize,
    repl: bool,
    path: Option<String>,
}

impl View for Lexer {
    type V = LexerView;

    closed spec fn view(&self) -> LexerView {
        LexerView {
            chars: self.input@,
            pos: self.position as int,
            interactive: self.repl,
            path: match self.path {
                Some(name) => Some(name@),
                None => None,
            },
        }
    }
}

/// The tokenizer over `chars` before any token has been taken.
pub open spec fn initial(chars: Seq<char>, interactive: bool, path: Option<&str>) -> LexerView {
    LexerView {
        chars,
        pos: 0,
        interactive,
        path: match path {
            Some(name) => Some(name@),
            None => None,
        },
    }
}

impl Lexer {
    /// The model is well-formed, and the line and column counters are those
    /// of the cursor.
    pub closed spec fn wf(&self) -> bool {
        &&& self@.wf()
        &&& self.input.len() < usize::MAX
        &&& self.curr_line == line_at(self.input@, self.position as int)
        &&& self.curr_col == column_at(self.input@, self.position as int)
    }

    /// The model of a well-formed tokenizer is well-formed.
    pub proof fn lemma_view_is_wf(&self)
        requires
            self.wf(),
        ensures
            self@.wf(),
    {
    }

    fn over(input: Vec<char>, repl: bool, path: Option<&str>) -> (lexer: Lexer)
        requires
            lexable(input@),
            !repl ==> path is Some,
        ensures
            lexer.wf(),
            lexer@ == initial(input@, repl, path),
    {
        let path = match path {
            Some(name) => Some(name.to_owned()),
            None => None,
        };
        Lexer { input, position: 0, curr_line: 1, curr_col: 1, repl, path }
    }

    /// A tokenizer over `s`, trimmed of the white space at its two ends, with
    /// the cursor at the first character. With `repl` set tokens carry no
    /// location; otherwise they carry their line and column in the source
    /// named `path`.
    pub fn new(s: &str, repl: bool, path: Option<&str>) -> (lexer: Lexer)
        requires
            !repl ==> path is Some,
            lexable(trimmed(s@, CharClass::White)),
        ensures
            lexer.wf(),
            lexer@ == initial(trimmed(s@, CharClass::White), repl, path),
    {
        Lexer::over(trim(s, CharClass::White), repl, path)
    }

    /// A tokenizer as [`Lexer::new`] makes it, or nothing where `new` may
    /// not be called: a source name is missing, or an integer in the text is
    /// too large.
    pub fn try_new(s: &str, repl: bool, path: Option<&str>) -> (made: Option<Lexer>)
        ensures
            made is Some <==> (!repl ==> path is Some) && lexable(trimmed(s@, CharClass::White)),
            made matches Some(lexer) ==> lexer.wf() && lexer@ == initial(
                trimmed(s@, CharClass::White),
                repl,
                path,
            ),
    {
        let input = trim(s, CharClass::White);
        if (!repl && path.is_none()) || input.len() == usize::MAX || !integers_in_range(&input) {
            None
        } else {
            Some(Lexer::over(input, repl, path))
        }
    }

    /// Moves the cursor past the character under it, if there is one, and
    /// counts the line and column.
    fn read_char(&mut self)
        requires
            old(self).wf(),
        ensures
            final(self).wf(),
            final(self)@ == (LexerView {
                pos: if old(self)@.pos < old(self)@.chars.len() {
                    old(self)@.pos + 1
                } else {
                    old(self)@.pos
                },
                ..old(self)@
            }),
    {
        if self.position < self.input.len() {
            proof {
                lemma_place_bounds(self.input@, self.position as int);
            }
            if self.input[self.position] == '\n' {
                self.curr_line += 1;
                self.curr_col = 1;
            } else {
                self.curr_col += 1;
            }
            self.position += 1;
        }
    }

    /// The character after the one under the cursor, if there is one.
    fn peek_char(&self) -> (next: Option<char>)
        requires
            self.wf(),
        ensures
            next == if self@.pos + 1 < self@.chars.len() {
                Some(self@.chars[self@.pos + 1])
            } else {
                None::<char>
            },
    {
        if self.position + 1 < self.input.len() {
            Some(self.input[self.position + 1])
        } else {
            None
        }
    }

    /// Moves the cursor past the longest run of `class` characters under it.
    fn skip_run(&mut self, class: CharClass)
        requires
            old(self).wf(),
        ensures
            final(self).wf(),
            final(self)@ == (LexerView {
                pos: run_end(old(self)@.chars, old(self)@.pos, class),
                ..old(self)@
            }),
    {
        let ghost before = self@;
        while self.position < self.input.len() && class.has(self.input[self.position])
            invariant
                self.wf(),
                self@ == (LexerView { pos: self@.pos, ..before }),
                run_end(before.chars, self@.pos, class) == run_end(before.chars, before.pos, class),
            decreases self.input.len() - self.position,
        {
            self.read_char();
        }
    }

    /// Moves the cursor past the separators under it.
    fn skip_whitespace(&mut self)
        requires
            old(self).wf(),
        ensures
            final(self).wf(),
            final(self)@ == (LexerView { pos: old(self)@.token_start(), ..old(self)@ }),
    {
        self.skip_run(CharClass::Space);
    }

    /// The location of the cursor, unless the mode is interactive.
    fn location(&self) -> (place: Option<Location>)
        requires
            self.wf(),
        ensures
            self@.location_of(self@.pos) == match place {
                Some(location) => Some(location@),
                None => None::<Position>,
            },
            place matches Some(location) ==> location@.wf(),
    {
        proof {
            lemma_place_bounds(self.input@, self.position as int);
        }
        if self.repl {
            None
        } else {
            match &self.path {
                Some(name) => Some(Location::new(self.curr_line, self.curr_col, name.as_str())),
                None => None,
            }
        }
    }

    /// Takes the integer whose first digit is under the cursor.
    fn read_number(&mut self) -> (token: Token)
        requires
            old(self).wf(),
            old(self)@.pos < old(self)@.chars.len(),
            CharClass::Digit.contains(old(self)@.chars[old(self)@.pos]),
        ensures
            final(self).wf(),
            final(self)@ == (LexerView {
                pos: run_end(old(self)@.chars, old(self)@.pos, CharClass::Digit),
                ..old(self)@
            }),
            token@ == (TokenView {
                kind: Kind::Int(
                    decimal_value(old(self)@.chars.subrange(old(self)@.pos, final(self)@.pos)),
                ),
                literal: old(self)@.chars.subrange(old(self)@.pos, final(self)@.pos),
                location: old(self)@.location_of(old(self)@.pos),
            }),
            token.wf(),
    {
        let loc = self.location();
        let position = self.position;
        self.skip_run(CharClass::Digit);
        proof {
            lemma_run_end_bounds(self.input@, position as int, CharClass::Digit);
            lemma_run_is_maximal(self.input@, position as int, CharClass::Digit);
            assert(all_digits(self.input@.subrange(position as int, self.position as int)));
        }
        let value = match parse_decimal(&self.input, position, self.position) {
            Some(value) => value,
            None => vstd::pervasive::unreached(),
        };
        Token {
            ttype: TokenKind::INT(value),
            literal: string_of(&self.input, position, self.position),
            local: loc,
        }
    }

    /// Takes the word whose first character is under the cursor: a keyword
    /// if it spells one, an identifier otherwise.
    fn read_identifier(&mut self) -> (token: Token)
        requires
            old(self).wf(),
            old(self)@.pos < old(self)@.chars.len(),
            CharClass::Word.contains(old(self)@.chars[old(self)@.pos]),
        ensures
            final(self).wf(),
            final(self)@ == (LexerView {
                pos: run_end(old(self)@.chars, old(self)@.pos, CharClass::Word),
                ..old(self)@
            }),
            token@ == (TokenView {
                kind: word_kind(old(self)@.chars.subrange(old(self)@.pos, final(self)@.pos)),
                literal: word_kind(
                    old(self)@.chars.subrange(old(self)@.pos, final(self)@.pos),
                ).spelling(),
                location: old(self)@.location_of(old(self)@.pos),
            }),
            token.wf(),
    {
        let loc = self.location();
        let position = self.position;
        self.skip_run(CharClass::Word);
        proof {
            lemma_run_end_bounds(self.input@, position as int, CharClass::Word);
        }
        let kind = match keyword_at(&self.input, position, self.position) {
            Some(kind) => kind,
            None => TokenKind::IDENT(string_of(&self.input, position, self.position)),
        };
        Token::new(kind, loc)
    }

    /// Takes the next token: skips separators, then reads one operator,
    /// delimiter, word or integer. At the end of the text the token is the
    /// end of input, however often it is asked for; a character that starts
    /// no token is taken as an illegal token of its own.
    pub fn next_token(&mut self) -> (token: Token)
        requires
            old(self).wf(),
        ensures
            final(self).wf(),
            token@ == old(self)@.token(),
            final(self)@ == old(self)@.after_token(),
            token.wf(),
    {
        self.skip_whitespace();
        proof {
            lemma_run_end_bounds(old(self)@.chars, old(self)@.pos, CharClass::Space);
        }
        if self.position >= self.input.len() {
            return Token::new(TokenKind::EOF, self.location());
        }
        let ch = self.input[self.position];
        let doubled = match self.peek_char() {
            Some(next) => next == '=',
            None => false,
        };
        let kind = if ch == '=' {
            if doubled {
                TokenKind::EQ
            } else {
                TokenKind::ASSIGN
            }
        } else if ch == '!' {
            if doubled {
                TokenKind::NEQ
            } else {
                TokenKind::BANG
            }
        } else if ch == ';' {
            TokenKind::SEMICOLON
        } else if ch == '(' {
            TokenKind::LPAREN
        } else if ch == ')' {
            TokenKind::RPAREN
        } else if ch == ',' {
            TokenKind::COMMA
        } else if ch == '+' {
            TokenKind::PLUS
        } else if ch == '{' {
            TokenKind::LBRACE
        } else if ch == '}' {
            TokenKind::RBRACE
        } else if ch == '-' {
            TokenKind::MINUS
        } else if ch == '*' {
            TokenKind::ASTERISK
        } else if ch == '/' {
            TokenKind::SLASH
        } else if ch == '<' {
            TokenKind::LT
        } else if ch == '>' {
            TokenKind::GT
        } else if CharClass::Word.has(ch) {
            return self.read_identifier();
        } else if CharClass::Digit.has(ch) {
            return self.read_number();
        } else {
            TokenKind::ILLEGAL
        };
        let tok = Token::new(kind, self.location());
        if (ch == '=' || ch == '!') && doubled {
            self.read_char();
        }
        self.read_char();
        tok
    }
}

} // verus!
