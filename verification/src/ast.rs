//! The syntax tree: a program is a sequence of statements, in the order in
//! which they were parsed.

use crate::token::{Token, TokenView};
use vstd::prelude::*;
use vstd::std_specs::cmp::PartialEqSpecImpl;

verus! {

/// A node of the syntax tree.
pub trait Node {
    /// The literal of the token that the node begins with.
    fn token_literal(&self) -> String;
}

/// A node that stands for a value. Every expression is a node, so it has
/// the node's `token_literal` too.
pub trait Expression {
    /// The literal of the token that the expression begins with.
    fn token_literal(&self) -> String;

    /// Marks the node as an expression.
    fn expression_node(&self);
}

/// An identifier as a mathematical value.
pub struct IdentifierView {
    /// The identifier token.
    pub token: TokenView,
    /// The name.
    pub value: Seq<char>,
}

impl IdentifierView {
    /// The name is the literal of the token.
    pub open spec fn wf(self) -> bool {
        self.value == self.token.literal
    }
}

/// A name in the program, with the token it was read from.
#[derive(Debug)]
pub struct Identifier {
    token: Token,
    value: String,
}

impl View for Identifier {
    type V = IdentifierView;

    closed spec fn view(&self) -> IdentifierView {
        IdentifierView { token: self.token@, value: self.value@ }
    }
}

impl Identifier {
    /// The identifier named `value`, read from `token`.
    pub fn new(token: Token, value: String) -> (identifier: Identifier)
        requires
            value@ == token@.literal,
        ensures
            identifier@ == (IdentifierView { token: token@, value: value@ }),
            identifier@.wf(),
    {
        Identifier { token, value }
    }

    /// The token that the identifier was read from.
    pub fn token(&self) -> (token: &Token)
        ensures
            token@ == self@.token,
    {
        &self.token
    }

    /// The name.
    pub fn value(&self) -> (value: &String)
        ensures
            value@ == self@.value,
    {
        &self.value
    }
}

/// A `let` statement as a mathematical value.
pub struct LetView {
    /// The `let` token.
    pub token: TokenView,
    /// The name that is bound, once it is known.
    pub name: Option<IdentifierView>,
    /// Whether an initializer is attached.
    pub has_value: bool,
}

/// A `let` statement: the keyword token, the name it binds and, where one
/// has been parsed, the expression that initializes it.
pub struct LetInternal {
    token: Token,
    name: Option<Identifier>,
    value: Option<Box<dyn Expression>>,
}

impl View for LetInternal {
    type V = LetView;

    closed spec fn view(&self) -> LetView {
        LetView {
            token: self.token@,
            name: match self.name {
                Some(name) => Some(name@),
                None => None,
            },
            has_value: self.value is Some,
        }
    }
}

impl LetInternal {
    /// The expression that initializes the name, where one is attached.
    pub closed spec fn initializer(&self) -> Option<Box<dyn Expression>> {
        self.value
    }

    /// The statement that begins with `token`, binds `name` and is
    /// initialized by `value`.
    pub fn new(
        token: Token,
        name: Option<Identifier>,
        value: Option<Box<dyn Expression>>,
    ) -> (let_statement: LetInternal)
        ensures
            let_statement@ == (LetView {
                token: token@,
                name: match name {
                    Some(name) => Some(name@),
                    None => None,
                },
                has_value: value is Some,
            }),
            let_statement.initializer() == value,
    {
        LetInternal { token, name, value }
    }

    /// Sets the name that the statement binds.
    pub fn change_name(&mut self, name: Identifier)
        ensures
            final(self)@ == (LetView { name: Some(name@), ..old(self)@ }),
            final(self).initializer() == old(self).initializer(),
    {
        self.name = Some(name);
    }

    /// The `let` token.
    pub fn token(&self) -> (token: &Token)
        ensures
            token@ == self@.token,
    {
        &self.token
    }

    /// The name that the statement binds, once it is known.
    pub fn name(&self) -> (name: Option<&Identifier>)
        ensures
            self@.name == match name {
                Some(name) => Some(name@),
                None => None::<IdentifierView>,
            },
    {
        self.name.as_ref()
    }

    /// The expression that initializes the name, where one was parsed.
    pub fn value(&self) -> (value: Option<&Box<dyn Expression>>)
        ensures
            value is Some == self@.has_value,
            match value {
                Some(expression) => self.initializer() == Some(*expression),
                None => self.initializer() is None,
            },
    {
        self.value.as_ref()
    }
}

/// A `return` statement as a mathematical value.
pub struct ReturnView {
    /// The `return` token.
    pub token: TokenView,
    /// Whether a returned expression is attached.
    pub has_value: bool,
}

/// A `return` statement: the keyword token and, where one has been parsed,
/// the expression that is returned.
pub struct ReturnInternal {
    token: Token,
    return_value: Option<Box<dyn Expression>>,
}

impl View for ReturnInternal {
    type V = ReturnView;

    closed spec fn view(&self) -> ReturnView {
        ReturnView { token: self.token@, has_value: self.return_value is Some }
    }
}

impl ReturnInternal {
    /// The expression that is returned, where one is attached.
    pub closed spec fn returned(&self) -> Option<Box<dyn Expression>> {
        self.return_value
    }

    /// The statement that begins with `token` and returns `return_value`.
    pub fn init(token: Token, return_value: Option<Box<dyn Expression>>) -> (return_statement: Self)
        ensures
            return_statement@ == (ReturnView { token: token@, has_value: return_value is Some }),
            return_statement.returned() == return_value,
    {
        Self { token, return_value }
    }

    /// The literal of the `return` token.
    pub fn token_literal(&self) -> (literal: &str)
        ensures
            literal@ == self@.token.literal,
    {
        self.token.literal.as_str()
    }
}

/// An expression statement as a mathematical value.
pub struct ExpressionView {
    /// The first token of the expression.
    pub token: TokenView,
    /// Whether the expression is attached.
    pub has_expression: bool,
}

/// An expression that stands as a statement of its own.
pub struct ExpressionInternal {
    token: Token,
    expression: Option<Box<dyn Expression>>,
}

impl View for ExpressionInternal {
    type V = ExpressionView;

    closed spec fn view(&self) -> ExpressionView {
        ExpressionView { token: self.token@, has_expression: self.expression is Some }
    }
}

impl ExpressionInternal {
    /// The expression, where one is attached.
    pub closed spec fn held(&self) -> Option<Box<dyn Expression>> {
        self.expression
    }

    /// The statement that begins with `token` and holds `expression`.
    pub fn init(token: Token, expression: Option<Box<dyn Expression>>) -> (statement: Self)
        ensures
            statement@ == (ExpressionView { token: token@, has_expression: expression is Some }),
            statement.held() == expression,
    {
        Self { token, expression }
    }

    /// The literal of the first token of the expression.
    pub fn token_literal(&self) -> (literal: &str)
        ensures
            literal@ == self@.token.literal,
    {
        self.token.literal.as_str()
    }
}

/// A statement as a mathematical value.
pub enum StatementView {
    Let(LetView),
    Return(ReturnView),
    Expression(ExpressionView),
}

impl StatementView {
    /// The name that the statement binds: that of a `let` statement whose
    /// name is known.
    pub open spec fn bound_name(self) -> Option<Seq<char>> {
        match self {
            StatementView::Let(statement) => match statement.name {
                Some(name) => Some(name.value),
                None => None,
            },
            _ => None,
        }
    }

    /// How the statement is shown: a `let` statement as its binding without
    /// the initializer, any other statement as nothing.
    pub open spec fn shown(self) -> Seq<char> {
        match self {
            StatementView::Let(statement) => match statement.name {
                Some(name) => "let "@ + name.value + " = "@,
                None => "let "@ + " = "@,
            },
            _ => Seq::empty(),
        }
    }

    /// Whether two statements at the same place of two programs let the
    /// programs be equal: two `let` statements must bind the same name.
    pub open spec fn agrees_with(self, other: StatementView) -> bool {
        self is Let && other is Let ==> self.bound_name() == other.bound_name()
    }
}

/// One statement of a program.
pub enum Statement {
    Let(LetInternal),
    Return(ReturnInternal),
    Expression(ExpressionInternal),
}

impl View for Statement {
    type V = StatementView;

    open spec fn view(&self) -> StatementView {
        match self {
            Statement::Let(statement) => StatementView::Let(statement@),
            Statement::Return(statement) => StatementView::Return(statement@),
            Statement::Expression(statement) => StatementView::Expression(statement@),
        }
    }
}

/// What a program shows as: its statements, each as
/// [`StatementView::shown`] gives it, one after the other.
pub open spec fn shown(statements: Seq<StatementView>) -> Seq<char>
    decreases statements.len(),
{
    if statements.len() == 0 {
        Seq::empty()
    } else {
        shown(statements.drop_last()) + statements.last().shown()
    }
}

/// A parsed program: its statements in the order in which they were parsed.
pub struct Program {
    pub statements: Vec<Statement>,
}

impl View for Program {
    type V = Seq<StatementView>;

    open spec fn view(&self) -> Seq<StatementView> {
        Seq::new(self.statements@.len(), |i: int| self.statements@[i]@)
    }
}

impl Default for Program {
    fn default() -> (program: Program)
        ensures
            program@ == Seq::<StatementView>::empty(),
    {
        Program { statements: Vec::new() }
    }
}

impl Program {
    /// The empty program.
    pub fn new() -> (program: Self)
        ensures
            program@ == Seq::<StatementView>::empty(),
    {
        Self { statements: Vec::new() }
    }

    /// Shows the program: `let`, the name and `=` for each `let` statement.
    pub fn to_string(&self) -> (text: String)
        ensures
            text@ == shown(self@),
    {
        let mut s = String::new();
        let mut i: usize = 0;
        while i < self.statements.len()
            invariant
                i <= self.statements.len(),
                s@ == shown(self@.take(i as int)),
            decreases self.statements.len() - i,
        {
            proof {
                assert(self@.take(i + 1).drop_last() == self@.take(i as int));
            }
            if let Statement::Let(statement) = &self.statements[i] {
                s.append("let ");
                if let Some(name) = statement.name() {
                    s.append(name.value().as_str());
                }
                s.append(" = ");
            }
            i += 1;
        }
        assert(self@.take(i as int) == self@);
        s
    }
}

impl PartialEq for Program {
    /// Two programs are equal unless, at some place that both have, each
    /// holds a `let` statement and the two bind different names.
    fn eq(&self, other: &Self) -> (same: bool) {
        let mut i: usize = 0;
        while i < self.statements.len() && i < other.statements.len()
            invariant
                i <= self.statements.len(),
                i <= other.statements.len(),
                forall|j: int| 0 <= j < i ==> (#[trigger] self@[j]).agrees_with(other@[j]),
            decreases self.statements.len() - i,
        {
            if let (Statement::Let(l), Statement::Let(r)) = (
                &self.statements[i],
                &other.statements[i],
            ) {
                let agree = match (l.name(), r.name()) {
                    (Some(l_name), Some(r_name)) => *l_name.value() == *r_name.value(),
                    (None, None) => true,
                    _ => false,
                };
                if !agree {
                    assert(!self@[i as int].agrees_with(other@[i as int]));
                    return false;
                }
            }
            i += 1;
        }
        true
    }
}

impl PartialEqSpecImpl for Program {
    open spec fn obeys_eq_spec() -> bool {
        true
    }

    open spec fn eq_spec(&self, other: &Self) -> bool {
        forall|i: int|
            0 <= i < self@.len() && i < other@.len() ==> (#[trigger] self@[i]).agrees_with(
                other@[i],
            )
    }
}

} // verus!
