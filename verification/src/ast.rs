//! The syntax tree that the parser builds.
//!
//! A tree owns its children. Each executable type has a ghost counterpart in
//! which text is a `Seq<char>` and a list is a `Seq`; the counterpart is the
//! type's view. A list that the source leaves out is an empty list.

use vstd::prelude::*;
use vstd::std_specs::cmp::PartialEqSpecImpl;

verus! {

/// A binary operator of the expression language.
#[derive(Clone, Copy, Debug, PartialEq, Eq, Structural)]
pub enum BinaryOperator {
    Add,
    Sub,
    Mul,
    Div,
    Lt,
    Gt,
    Ne,
}

/// An expression. A float literal is kept as it was written.
#[derive(Debug)]
pub enum Expression {
    Integer(i64),
    Float(String),
    String(String),
    Boolean(bool),
    Variable(String),
    BinaryOperation { lhs: Box<Expression>, operator: BinaryOperator, rhs: Box<Expression> },
}

/// A statement.
#[derive(Debug)]
pub enum Statement {
    /// `id = value;`
    Variable { id: String, value: Box<Expression> },
    /// `print(value);`
    Print { value: Box<Expression> },
    /// `if (condition) { then_branch } else { else_branch };`
    Condition { condition: Box<Expression>, then_branch: Vec<Statement>, else_branch: Vec<Statement> },
    /// `while (condition) do { body };`
    Cycle { condition: Box<Expression>, body: Vec<Statement> },
    /// `id(args);`
    FunctionCall { id: String, args: Vec<Expression> },
}

/// A function: its name, its parameters and its local variables, each a
/// name with its type, and its body.
#[derive(Debug)]
pub struct Function {
    pub id: String,
    pub params: Vec<(String, String)>,
    pub vars: Vec<(String, String)>,
    pub body: Vec<Statement>,
}

/// A program: its name, its global variables, each a name with its type,
/// its functions and the statements of `main`.
#[derive(Debug)]
pub struct Program {
    pub id: String,
    pub vars: Vec<(String, String)>,
    pub funcs: Vec<Function>,
    pub body: Vec<Statement>,
}

/// The ghost counterpart of [`Expression`].
pub enum SpecExpression {
    Integer(i64),
    Float(Seq<char>),
    String(Seq<char>),
    Boolean(bool),
    Variable(Seq<char>),
    BinaryOperation { lhs: Box<SpecExpression>, operator: BinaryOperator, rhs: Box<SpecExpression> },
}

/// The ghost counterpart of [`Statement`].
pub enum SpecStatement {
    Variable { id: Seq<char>, value: SpecExpression },
    Print { value: SpecExpression },
    Condition {
        condition: SpecExpression,
        then_branch: Seq<SpecStatement>,
        else_branch: Seq<SpecStatement>,
    },
    Cycle { condition: SpecExpression, body: Seq<SpecStatement> },
    FunctionCall { id: Seq<char>, args: Seq<SpecExpression> },
}

/// A declared name with its type, as text.
pub type SpecDeclaration = (Seq<char>, Seq<char>);

/// The ghost counterpart of [`Function`].
pub struct SpecFunction {
    pub id: Seq<char>,
    pub params: Seq<SpecDeclaration>,
    pub vars: Seq<SpecDeclaration>,
    pub body: Seq<SpecStatement>,
}

/// The ghost counterpart of [`Program`].
pub struct SpecProgram {
    pub id: Seq<char>,
    pub vars: Seq<SpecDeclaration>,
    pub funcs: Seq<SpecFunction>,
    pub body: Seq<SpecStatement>,
}

impl View for Expression {
    type V = SpecExpression;

    open spec fn view(&self) -> SpecExpression
        decreases self,
    {
        match self {
            Expression::Integer(value) => SpecExpression::Integer(*value),
            Expression::Float(text) => SpecExpression::Float(text@),
            Expression::String(text) => SpecExpression::String(text@),
            Expression::Boolean(value) => SpecExpression::Boolean(*value),
            Expression::Variable(name) => SpecExpression::Variable(name@),
            Expression::BinaryOperation { lhs, operator, rhs } => SpecExpression::BinaryOperation {
                lhs: Box::new((**lhs).view()),
                operator: *operator,
                rhs: Box::new((**rhs).view()),
            },
        }
    }
}

/// The views of a list of expressions, in order.
pub open spec fn expression_views(list: Seq<Expression>) -> Seq<SpecExpression> {
    Seq::new(list.len(), |i: int| list[i]@)
}

/// The views of a list of statements, in order.
pub open spec fn statement_views(list: Seq<Statement>) -> Seq<SpecStatement>
    decreases list,
{
    Seq::new(
        list.len(),
        |i: int|
            if 0 <= i < list.len() {
                list[i].view()
            } else {
                arbitrary()
            },
    )
}

impl View for Statement {
    type V = SpecStatement;

    open spec fn view(&self) -> SpecStatement
        decreases self,
    {
        match self {
            Statement::Variable { id, value } => SpecStatement::Variable {
                id: id@,
                value: (**value).view(),
            },
            Statement::Print { value } => SpecStatement::Print { value: (**value).view() },
            Statement::Condition { condition, then_branch, else_branch } => SpecStatement::Condition {
                condition: (**condition).view(),
                then_branch: statement_views(then_branch@),
                else_branch: statement_views(else_branch@),
            },
            Statement::Cycle { condition, body } => SpecStatement::Cycle {
                condition: (**condition).view(),
                body: statement_views(body@),
            },
            Statement::FunctionCall { id, args } => SpecStatement::FunctionCall {
                id: id@,
                args: expression_views(args@),
            },
        }
    }
}

/// The views of a list of declarations, in order.
pub open spec fn declaration_views(list: Seq<(String, String)>) -> Seq<SpecDeclaration> {
    Seq::new(list.len(), |i: int| (list[i].0@, list[i].1@))
}

impl View for Function {
    type V = SpecFunction;

    open spec fn view(&self) -> SpecFunction {
        SpecFunction {
            id: self.id@,
            params: declaration_views(self.params@),
            vars: declaration_views(self.vars@),
            body: statement_views(self.body@),
        }
    }
}

/// The views of a list of functions, in order.
pub open spec fn function_views(list: Seq<Function>) -> Seq<SpecFunction> {
    Seq::new(list.len(), |i: int| list[i]@)
}

impl View for Program {
    type V = SpecProgram;

    open spec fn view(&self) -> SpecProgram {
        SpecProgram {
            id: self.id@,
            vars: declaration_views(self.vars@),
            funcs: function_views(self.funcs@),
            body: statement_views(self.body@),
        }
    }
}

impl Clone for Expression {
    fn clone(&self) -> (copy: Expression)
        ensures
            copy@ == self@,
        decreases self,
    {
        match self {
            Expression::Integer(value) => Expression::Integer(*value),
            Expression::Float(text) => Expression::Float(text.clone()),
            Expression::String(text) => Expression::String(text.clone()),
            Expression::Boolean(value) => Expression::Boolean(*value),
            Expression::Variable(name) => Expression::Variable(name.clone()),
            Expression::BinaryOperation { lhs, operator, rhs } => Expression::BinaryOperation {
                lhs: Box::new((**lhs).clone()),
                operator: *operator,
                rhs: Box::new((**rhs).clone()),
            },
        }
    }
}

/// A copy of a list of expressions.
fn clone_expressions(list: &Vec<Expression>) -> (copy: Vec<Expression>)
    ensures
        expression_views(copy@) == expression_views(list@),
{
    let mut copy: Vec<Expression> = Vec::new();
    let mut i: usize = 0;
    while i < list.len()
        invariant
            i <= list.len(),
            copy.len() == i,
            forall|j: int| 0 <= j < i ==> copy@[j]@ == list@[j]@,
        decreases list.len() - i,
    {
        copy.push(list[i].clone());
        i = i + 1;
    }
    assert(expression_views(copy@) =~= expression_views(list@));
    copy
}

/// A copy of a list of statements.
fn clone_statements(list: &Vec<Statement>) -> (copy: Vec<Statement>)
    ensures
        statement_views(copy@) == statement_views(list@),
    decreases list,
{
    let mut copy: Vec<Statement> = Vec::new();
    let mut i: usize = 0;
    while i < list.len()
        invariant
            i <= list.len(),
            copy.len() == i,
            forall|j: int| 0 <= j < i ==> copy@[j]@ == list@[j]@,
        decreases list.len() - i,
    {
        copy.push(list[i].clone());
        i = i + 1;
    }
    assert(statement_views(copy@) =~= statement_views(list@));
    copy
}

/// A copy of a list of declarations.
fn clone_declarations(list: &Vec<(String, String)>) -> (copy: Vec<(String, String)>)
    ensures
        declaration_views(copy@) == declaration_views(list@),
{
    let mut copy: Vec<(String, String)> = Vec::new();
    let mut i: usize = 0;
    while i < list.len()
        invariant
            i <= list.len(),
            copy.len() == i,
            forall|j: int| 0 <= j < i ==> copy@[j].0@ == list@[j].0@ && copy@[j].1@ == list@[j].1@,
        decreases list.len() - i,
    {
        copy.push((list[i].0.clone(), list[i].1.clone()));
        i = i + 1;
    }
    assert(declaration_views(copy@) =~= declaration_views(list@));
    copy
}

impl Clone for Statement {
    fn clone(&self) -> (copy: Statement)
        ensures
            copy@ == self@,
        decreases self,
    {
        match self {
            Statement::Variable { id, value } => Statement::Variable {
                id: id.clone(),
                value: Box::new((**value).clone()),
            },
            Statement::Print { value } => Statement::Print { value: Box::new((**value).clone()) },
            Statement::Condition { condition, then_branch, else_branch } => Statement::Condition {
                condition: Box::new((**condition).clone()),
                then_branch: clone_statements(then_branch),
                else_branch: clone_statements(else_branch),
            },
            Statement::Cycle { condition, body } => Statement::Cycle {
                condition: Box::new((**condition).clone()),
                body: clone_statements(body),
            },
            Statement::FunctionCall { id, args } => Statement::FunctionCall {
                id: id.clone(),
                args: clone_expressions(args),
            },
        }
    }
}

impl Clone for Function {
    fn clone(&self) -> (copy: Function)
        ensures
            copy@ == self@,
    {
        Function {
            id: self.id.clone(),
            params: clone_declarations(&self.params),
            vars: clone_declarations(&self.vars),
            body: clone_statements(&self.body),
        }
    }
}

impl Clone for Program {
    fn clone(&self) -> (copy: Program)
        ensures
            copy@ == self@,
    {
        let mut funcs: Vec<Function> = Vec::new();
        let mut i: usize = 0;
        while i < self.funcs.len()
            invariant
                i <= self.funcs.len(),
                funcs.len() == i,
                forall|j: int| 0 <= j < i ==> funcs@[j]@ == self.funcs@[j]@,
            decreases self.funcs.len() - i,
        {
            funcs.push(self.funcs[i].clone());
            i = i + 1;
        }
        assert(function_views(funcs@) =~= function_views(self.funcs@));
        Program {
            id: self.id.clone(),
            vars: clone_declarations(&self.vars),
            funcs,
            body: clone_statements(&self.body),
        }
    }
}

// ------------------------------------------------------------------
// Equality
// ------------------------------------------------------------------
// Two trees are equal where they have the same shape and hold the same
// text and values: where their views are equal.
impl PartialEq for Expression {
    fn eq(&self, other: &Expression) -> (same: bool)
        decreases self,
    {
        match (self, other) {
            (Expression::Integer(a), Expression::Integer(b)) => *a == *b,
            (Expression::Float(a), Expression::Float(b)) => *a == *b,
            (Expression::String(a), Expression::String(b)) => *a == *b,
            (Expression::Boolean(a), Expression::Boolean(b)) => *a == *b,
            (Expression::Variable(a), Expression::Variable(b)) => *a == *b,
            (
                Expression::BinaryOperation { lhs, operator, rhs },
                Expression::BinaryOperation { lhs: other_lhs, operator: other_operator, rhs: other_rhs },
            ) => *operator == *other_operator && (**lhs).eq(&**other_lhs) && (**rhs).eq(
                &**other_rhs,
            ),
            _ => false,
        }
    }
}

impl PartialEqSpecImpl for Expression {
    open spec fn obeys_eq_spec() -> bool {
        true
    }

    open spec fn eq_spec(&self, other: &Expression) -> bool {
        self@ == other@
    }
}

/// Whether two lists of expressions are equal.
fn same_expressions(a: &Vec<Expression>, b: &Vec<Expression>) -> (same: bool)
    ensures
        same == (expression_views(a@) == expression_views(b@)),
{
    if a.len() != b.len() {
        assert(expression_views(a@).len() != expression_views(b@).len());
        return false;
    }
    let mut i: usize = 0;
    while i < a.len()
        invariant
            i <= a.len(),
            a.len() == b.len(),
            forall|j: int| 0 <= j < i ==> a@[j]@ == b@[j]@,
        decreases a.len() - i,
    {
        if !a[i].eq(&b[i]) {
            assert(expression_views(a@)[i as int] != expression_views(b@)[i as int]);
            return false;
        }
        i = i + 1;
    }
    assert(expression_views(a@) =~= expression_views(b@));
    true
}

/// Whether two lists of statements are equal.
fn same_statements(a: &Vec<Statement>, b: &Vec<Statement>) -> (same: bool)
    ensures
        same == (statement_views(a@) == statement_views(b@)),
    decreases a,
{
    if a.len() != b.len() {
        assert(statement_views(a@).len() != statement_views(b@).len());
        return false;
    }
    let mut i: usize = 0;
    while i < a.len()
        invariant
            i <= a.len(),
            a.len() == b.len(),
            forall|j: int| 0 <= j < i ==> a@[j]@ == b@[j]@,
        decreases a.len() - i,
    {
        if !a[i].eq(&b[i]) {
            assert(statement_views(a@)[i as int] != statement_views(b@)[i as int]);
            return false;
        }
        i = i + 1;
    }
    assert(statement_views(a@) =~= statement_views(b@));
    true
}

/// Whether two lists of declarations are equal.
fn same_declarations(a: &Vec<(String, String)>, b: &Vec<(String, String)>) -> (same: bool)
    ensures
        same == (declaration_views(a@) == declaration_views(b@)),
{
    if a.len() != b.len() {
        assert(declaration_views(a@).len() != declaration_views(b@).len());
        return false;
    }
    let mut i: usize = 0;
    while i < a.len()
        invariant
            i <= a.len(),
            a.len() == b.len(),
            forall|j: int| 0 <= j < i ==> a@[j].0@ == b@[j].0@ && a@[j].1@ == b@[j].1@,
        decreases a.len() - i,
    {
        if !(a[i].0 == b[i].0 && a[i].1 == b[i].1) {
            assert(declaration_views(a@)[i as int] != declaration_views(b@)[i as int]);
            return false;
        }
        i = i + 1;
    }
    assert(declaration_views(a@) =~= declaration_views(b@));
    true
}

impl PartialEq for Statement {
    fn eq(&self, other: &Statement) -> (same: bool)
        decreases self,
    {
        match (self, other) {
            (
                Statement::Variable { id, value },
                Statement::Variable { id: other_id, value: other_value },
            ) => *id == *other_id && (**value).eq(&**other_value),
            (Statement::Print { value }, Statement::Print { value: other_value }) => (**value).eq(
                &**other_value,
            ),
            (
                Statement::Condition { condition, then_branch, else_branch },
                Statement::Condition {
                    condition: other_condition,
                    then_branch: other_then,
                    else_branch: other_else,
                },
            ) => (**condition).eq(&**other_condition) && same_statements(then_branch, other_then)
                && same_statements(else_branch, other_else),
            (
                Statement::Cycle { condition, body },
                Statement::Cycle { condition: other_condition, body: other_body },
            ) => (**condition).eq(&**other_condition) && same_statements(body, other_body),
            (
                Statement::FunctionCall { id, args },
                Statement::FunctionCall { id: other_id, args: other_args },
            ) => *id == *other_id && same_expressions(args, other_args),
            _ => false,
        }
    }
}

impl PartialEqSpecImpl for Statement {
    open spec fn obeys_eq_spec() -> bool {
        true
    }

    open spec fn eq_spec(&self, other: &Statement) -> bool {
        self@ == other@
    }
}

impl PartialEq for Function {
    fn eq(&self, other: &Function) -> (same: bool) {
        self.id == other.id && same_declarations(&self.params, &other.params)
            && same_declarations(&self.vars, &other.vars) && same_statements(
            &self.body,
            &other.body,
        )
    }
}

impl PartialEqSpecImpl for Function {
    open spec fn obeys_eq_spec() -> bool {
        true
    }

    open spec fn eq_spec(&self, other: &Function) -> bool {
        self@ == other@
    }
}

/// Whether two lists of functions are equal.
fn same_functions(a: &Vec<Function>, b: &Vec<Function>) -> (same: bool)
    ensures
        same == (function_views(a@) == function_views(b@)),
{
    if a.len() != b.len() {
        assert(function_views(a@).len() != function_views(b@).len());
        return false;
    }
    let mut i: usize = 0;
    while i < a.len()
        invariant
            i <= a.len(),
            a.len() == b.len(),
            forall|j: int| 0 <= j < i ==> a@[j]@ == b@[j]@,
        decreases a.len() - i,
    {
        if !a[i].eq(&b[i]) {
            assert(function_views(a@)[i as int] != function_views(b@)[i as int]);
            return false;
        }
        i = i + 1;
    }
    assert(function_views(a@) =~= function_views(b@));
    true
}

impl PartialEq for Program {
    fn eq(&self, other: &Program) -> (same: bool) {
        self.id == other.id && same_declarations(&self.vars, &other.vars) && same_functions(
            &self.funcs,
            &other.funcs,
        ) && same_statements(&self.body, &other.body)
    }
}

impl PartialEqSpecImpl for Program {
    open spec fn obeys_eq_spec() -> bool {
        true
    }

    open spec fn eq_spec(&self, other: &Program) -> bool {
        self@ == other@
    }
}

} // verus!
