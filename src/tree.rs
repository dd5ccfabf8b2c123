//! The syntax tree and its mathematical view.
use vstd::prelude::*;

use crate::elements::{Identifier, IdentifierV, Literal, LiteralV, Operator};

verus! {

/// The root of a parse: one module.
#[derive(Debug, PartialEq)]
pub struct Module {
    pub name: Identifier,
    pub imports: Vec<Import>,
    pub functions: Vec<Function>,
    pub statements: StatementBlock,
}

/// One imported name: `name as alias from source`.
#[derive(Debug, PartialEq)]
pub struct Import {
    pub name: Identifier,
    pub alias: Identifier,
    pub source: Identifier,
}

#[derive(Debug, PartialEq)]
pub struct Function {
    pub name: Identifier,
    pub parameters: Vec<Parameter>,
    pub return_type: Option<Identifier>,
    pub body: Box<StatementBlock>,
}

#[derive(Debug, PartialEq)]
pub struct Parameter {
    pub name: Identifier,
    pub param_type: Identifier,
}

#[derive(Debug, PartialEq)]
pub struct StatementBlock {
    pub statements: Vec<Statement>,
}

impl StatementBlock {
    /// A block without statements.
    pub fn empty() -> (r: StatementBlock)
        ensures
            r@ == Seq::<StatementV>::empty(),
    {
        let r = StatementBlock { statements: Vec::new() };
        proof {
            assert(statements_view(r.statements@) =~= Seq::<StatementV>::empty());
        }
        r
    }
}

#[derive(Debug, PartialEq)]
pub enum Statement {
    Declaration(DeclarationStatement),
    Assignment(AssignmentStatement),
    Expression(Expression),
    Return(ReturnStatement),
    Conditional(ConditionalStatement),
    Loop(LoopStatement),
}

#[derive(Debug, PartialEq)]
pub struct DeclarationStatement {
    pub name: Identifier,
    pub var_type: Identifier,
    pub value: Expression,
    pub is_mutable: bool,
}

#[derive(Debug, PartialEq)]
pub struct AssignmentStatement {
    pub reference: Reference,
    pub value: Expression,
}

#[derive(Debug, PartialEq)]
pub struct ReturnStatement {
    pub value: Expression,
}

#[derive(Debug, PartialEq)]
pub struct ConditionalStatement {
    pub condition: Expression,
    pub body: Box<StatementBlock>,
    pub else_body: Option<Box<StatementBlock>>,
}

#[derive(Debug, PartialEq)]
pub struct LoopStatement {
    pub condition: Expression,
    pub body: Box<StatementBlock>,
}

#[derive(Debug, PartialEq)]
pub enum Expression {
    TernaryCondition {
        condition: Box<Expression>,
        true_value: Box<Expression>,
        false_value: Box<Expression>,
    },
    BinaryOperation { left: Box<Expression>, operator: Operator, right: Box<Expression> },
    UnaryOperation { operator: Operator, operand: Box<Expression> },
    Atomic(AtomicExpression),
}

#[derive(Debug, PartialEq)]
pub enum AtomicExpression {
    Literal(Literal),
    Identifier(Identifier),
    FunctionCall(FunctionCallExpression),
    Parenthesized(ParenthesizedExpression),
    ArrayLiteral(ArrayLiteralExpression),
    ArrayIndex(ArrayIndexExpression),
}

#[derive(Debug, PartialEq)]
pub struct FunctionCallExpression {
    pub name: Identifier,
    pub parameters: Vec<Expression>,
}

#[derive(Debug, PartialEq)]
pub struct ParenthesizedExpression {
    pub value: Box<Expression>,
}

#[derive(Debug, PartialEq)]
pub struct ArrayLiteralExpression {
    pub values: Vec<Expression>,
}

#[derive(Debug, PartialEq)]
pub struct ArrayIndexExpression {
    pub array: Box<AtomicExpression>,
    pub index: ArrayIndex,
}

#[derive(Debug, PartialEq)]
pub enum ArrayIndex {
    Single(Box<Expression>),
    Slice { start: Option<Box<Expression>>, end: Option<Box<Expression>> },
}

/// An assignable place.
#[derive(Debug, PartialEq)]
pub enum Reference {
    Identifier(Identifier),
    ArrayReference { array: Box<Reference>, index: ArrayIndex },
}

// The mathematical values of the tree.
pub enum ExpressionV {
    Ternary { condition: Box<ExpressionV>, true_value: Box<ExpressionV>, false_value: Box<ExpressionV> },
    Binary { left: Box<ExpressionV>, operator: Operator, right: Box<ExpressionV> },
    Unary { operator: Operator, operand: Box<ExpressionV> },
    Atomic(AtomicV),
}

pub enum AtomicV {
    Literal(LiteralV),
    Identifier(IdentifierV),
    FunctionCall { name: IdentifierV, parameters: Seq<ExpressionV> },
    Parenthesized(Box<ExpressionV>),
    ArrayLiteral(Seq<ExpressionV>),
    ArrayIndex { array: Box<AtomicV>, index: ArrayIndexV },
}

pub enum ArrayIndexV {
    Single(Box<ExpressionV>),
    Slice { start: Option<Box<ExpressionV>>, end: Option<Box<ExpressionV>> },
}

pub enum ReferenceV {
    Identifier(IdentifierV),
    ArrayReference { array: Box<ReferenceV>, index: ArrayIndexV },
}

pub enum StatementV {
    Declaration { name: IdentifierV, var_type: IdentifierV, value: ExpressionV, is_mutable: bool },
    Assignment { reference: ReferenceV, value: ExpressionV },
    Expression(ExpressionV),
    Return(ExpressionV),
    Conditional { condition: ExpressionV, body: Seq<StatementV>, else_body: Option<Seq<StatementV>> },
    Loop { condition: ExpressionV, body: Seq<StatementV> },
}

pub struct ParameterV {
    pub name: IdentifierV,
    pub param_type: IdentifierV,
}

pub struct FunctionV {
    pub name: IdentifierV,
    pub parameters: Seq<ParameterV>,
    pub return_type: Option<IdentifierV>,
    pub body: Seq<StatementV>,
}

pub struct ImportV {
    pub name: IdentifierV,
    pub alias: IdentifierV,
    pub source: IdentifierV,
}

pub struct ModuleV {
    pub name: IdentifierV,
    pub imports: Seq<ImportV>,
    pub functions: Seq<FunctionV>,
    pub statements: Seq<StatementV>,
}

pub open spec fn expression_view(e: Expression) -> ExpressionV
    decreases e,
{
    match e {
        Expression::TernaryCondition { condition, true_value, false_value } => ExpressionV::Ternary {
            condition: Box::new(expression_view(*condition)),
            true_value: Box::new(expression_view(*true_value)),
            false_value: Box::new(expression_view(*false_value)),
        },
        Expression::BinaryOperation { left, operator, right } => ExpressionV::Binary {
            left: Box::new(expression_view(*left)),
            operator,
            right: Box::new(expression_view(*right)),
        },
        Expression::UnaryOperation { operator, operand } => ExpressionV::Unary {
            operator,
            operand: Box::new(expression_view(*operand)),
        },
        Expression::Atomic(a) => ExpressionV::Atomic(atomic_view(a)),
    }
}

pub open spec fn atomic_view(a: AtomicExpression) -> AtomicV
    decreases a,
{
    match a {
        AtomicExpression::Literal(l) => AtomicV::Literal(l@),
        AtomicExpression::Identifier(i) => AtomicV::Identifier(i@),
        AtomicExpression::FunctionCall(f) => AtomicV::FunctionCall {
            name: f.name@,
            parameters: expressions_view(f.parameters@),
        },
        AtomicExpression::Parenthesized(p) => AtomicV::Parenthesized(
            Box::new(expression_view(*p.value)),
        ),
        AtomicExpression::ArrayLiteral(l) => AtomicV::ArrayLiteral(expressions_view(l.values@)),
        AtomicExpression::ArrayIndex(x) => AtomicV::ArrayIndex {
            array: Box::new(atomic_view(*x.array)),
            index: array_index_view(x.index),
        },
    }
}

pub open spec fn array_index_view(x: ArrayIndex) -> ArrayIndexV
    decreases x,
{
    match x {
        ArrayIndex::Single(e) => ArrayIndexV::Single(Box::new(expression_view(*e))),
        ArrayIndex::Slice { start, end } => ArrayIndexV::Slice {
            start: match start {
                Some(e) => Some(Box::new(expression_view(*e))),
                None => None,
            },
            end: match end {
                Some(e) => Some(Box::new(expression_view(*e))),
                None => None,
            },
        },
    }
}

pub open spec fn expressions_view(s: Seq<Expression>) -> Seq<ExpressionV>
    decreases s,
{
    if s.len() == 0 {
        Seq::empty()
    } else {
        expressions_view(s.subrange(0, s.len() - 1)).push(expression_view(s[s.len() - 1]))
    }
}

pub open spec fn reference_view(r: Reference) -> ReferenceV
    decreases r,
{
    match r {
        Reference::Identifier(i) => ReferenceV::Identifier(i@),
        Reference::ArrayReference { array, index } => ReferenceV::ArrayReference {
            array: Box::new(reference_view(*array)),
            index: array_index_view(index),
        },
    }
}

pub open spec fn statement_view(s: Statement) -> StatementV
    decreases s,
{
    match s {
        Statement::Declaration(d) => StatementV::Declaration {
            name: d.name@,
            var_type: d.var_type@,
            value: expression_view(d.value),
            is_mutable: d.is_mutable,
        },
        Statement::Assignment(a) => StatementV::Assignment {
            reference: reference_view(a.reference),
            value: expression_view(a.value),
        },
        Statement::Expression(e) => StatementV::Expression(expression_view(e)),
        Statement::Return(r) => StatementV::Return(expression_view(r.value)),
        Statement::Conditional(c) => StatementV::Conditional {
            condition: expression_view(c.condition),
            body: statements_view(c.body.statements@),
            else_body: match c.else_body {
                Some(b) => Some(statements_view(b.statements@)),
                None => None,
            },
        },
        Statement::Loop(l) => StatementV::Loop {
            condition: expression_view(l.condition),
            body: statements_view(l.body.statements@),
        },
    }
}

pub open spec fn statements_view(s: Seq<Statement>) -> Seq<StatementV>
    decreases s,
{
    if s.len() == 0 {
        Seq::empty()
    } else {
        statements_view(s.subrange(0, s.len() - 1)).push(statement_view(s[s.len() - 1]))
    }
}

impl View for Expression {
    type V = ExpressionV;

    open spec fn view(&self) -> ExpressionV {
        expression_view(*self)
    }
}

impl View for AtomicExpression {
    type V = AtomicV;

    open spec fn view(&self) -> AtomicV {
        atomic_view(*self)
    }
}

impl View for Reference {
    type V = ReferenceV;

    open spec fn view(&self) -> ReferenceV {
        reference_view(*self)
    }
}

impl View for Statement {
    type V = StatementV;

    open spec fn view(&self) -> StatementV {
        statement_view(*self)
    }
}

impl View for StatementBlock {
    type V = Seq<StatementV>;

    open spec fn view(&self) -> Seq<StatementV> {
        statements_view(self.statements@)
    }
}

impl View for Parameter {
    type V = ParameterV;

    open spec fn view(&self) -> ParameterV {
        ParameterV { name: self.name@, param_type: self.param_type@ }
    }
}

pub open spec fn parameters_view(s: Seq<Parameter>) -> Seq<ParameterV> {
    s.map_values(|p: Parameter| p@)
}

pub open spec fn optional_identifier_view(i: Option<Identifier>) -> Option<IdentifierV> {
    match i {
        Some(i) => Some(i@),
        None => None,
    }
}

impl View for Function {
    type V = FunctionV;

    open spec fn view(&self) -> FunctionV {
        FunctionV {
            name: self.name@,
            parameters: parameters_view(self.parameters@),
            return_type: optional_identifier_view(self.return_type),
            body: statements_view(self.body.statements@),
        }
    }
}

pub open spec fn functions_view(s: Seq<Function>) -> Seq<FunctionV> {
    s.map_values(|f: Function| f@)
}

impl View for Import {
    type V = ImportV;

    open spec fn view(&self) -> ImportV {
        ImportV { name: self.name@, alias: self.alias@, source: self.source@ }
    }
}

pub open spec fn imports_view(s: Seq<Import>) -> Seq<ImportV> {
    s.map_values(|i: Import| i@)
}

impl View for Module {
    type V = ModuleV;

    open spec fn view(&self) -> ModuleV {
        ModuleV {
            name: self.name@,
            imports: imports_view(self.imports@),
            functions: functions_view(self.functions@),
            statements: self.statements@,
        }
    }
}

} // verus!
