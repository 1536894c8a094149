use vstd::prelude::*;

use crate::types::Ty;
use crate::values::{ConstValue, NumericLiteralMetadata, Span};

verus! {

/// Unary operators.
#[derive(Clone, Copy, Debug, PartialEq, Eq, Structural)]
pub enum UnOp {
    Neg,
    UnaryPlus,
    Not,
    BitNot,
    Increment,
    Decrement,
    Deref,
    AddrOf,
    AddrOfMut,
}

/// Binary operators.
#[derive(Clone, Copy, Debug, PartialEq, Eq, Structural)]
pub enum BinOp {
    Add,
    Sub,
    Mul,
    Div,
    Rem,
    BitAnd,
    BitOr,
    BitXor,
    Shl,
    Shr,
    Eq,
    Ne,
    Lt,
    Le,
    Gt,
    Ge,
    And,
    Or,
    NullCoalesce,
}

/// Assignment operators.
#[derive(Clone, Copy, Debug, PartialEq, Eq, Structural)]
pub enum AssignOp {
    Assign,
    AddAssign,
    SubAssign,
    MulAssign,
    DivAssign,
    RemAssign,
    BitAndAssign,
    BitOrAssign,
    BitXorAssign,
    ShlAssign,
    ShrAssign,
    NullCoalesceAssign,
}

/// How a cast was written.
#[derive(Clone, Copy, Debug, PartialEq, Eq, Structural)]
pub enum CastSyntax {
    Paren,
    As,
}

/// A literal together with its numeric metadata.
#[derive(Debug)]
pub struct LiteralConst {
    pub value: ConstValue,
    pub numeric: Option<NumericLiteralMetadata>,
}

impl LiteralConst {
    /// A literal without numeric metadata.
    pub fn without_numeric(value: ConstValue) -> (r: LiteralConst)
        ensures
            r.value == value,
            r.numeric is None,
    {
        LiteralConst { value, numeric: None }
    }
}

/// The operand of `sizeof` / `alignof`.
#[derive(Debug)]
pub enum SizeOfOperand {
    Type(String),
    Value(Box<ExprNode>),
}

/// The operand of `nameof`.
#[derive(Debug)]
pub struct NameOfOperand {
    pub segments: Vec<String>,
    pub text: String,
    pub span: Option<Span>,
}

/// The name given to a call argument.
#[derive(Debug)]
pub struct CallArgumentName {
    pub text: String,
    pub span: Option<Span>,
}

/// A parameter-passing modifier written on a call argument.
#[derive(Clone, Copy, Debug, PartialEq, Eq, Structural)]
pub enum CallArgumentModifier {
    In,
    Ref,
    Out,
}

/// The keyword that spells a call argument modifier.
pub open spec fn modifier_keyword(m: CallArgumentModifier) -> Seq<char> {
    match m {
        CallArgumentModifier::In => "in"@,
        CallArgumentModifier::Ref => "ref"@,
        CallArgumentModifier::Out => "out"@,
    }
}

impl CallArgumentModifier {
    pub fn keyword(&self) -> (r: &'static str)
        ensures
            r@ == modifier_keyword(*self),
    {
        match self {
            CallArgumentModifier::In => "in",
            CallArgumentModifier::Ref => "ref",
            CallArgumentModifier::Out => "out",
        }
    }
}

/// The kind of an inline binding (`out var x`).
#[derive(Clone, Copy, Debug, PartialEq, Eq, Structural)]
pub enum InlineBindingKind {
    Var,
    Let,
}

/// A variable declared inline in a call argument.
#[derive(Debug)]
pub struct InlineBinding {
    pub kind: InlineBindingKind,
    pub name: String,
    pub initializer: Option<ExprNode>,
}

/// An argument of a call or `new` expression.
#[derive(Debug)]
pub struct CallArgument {
    pub name: Option<CallArgumentName>,
    pub value: ExprNode,
    pub modifier: Option<CallArgumentModifier>,
    pub inline_binding: Option<InlineBinding>,
    pub span: Option<Span>,
}

impl CallArgument {
    /// An unnamed argument without modifier.
    pub fn positional(value: ExprNode, span: Option<Span>) -> (r: CallArgument)
        ensures
            r.name is None,
            r.value == value,
            r.modifier is None,
            r.inline_binding is None,
            r.span == span,
    {
        CallArgument { name: None, value, modifier: None, inline_binding: None, span }
    }

    /// A named argument without modifier.
    pub fn named(name: CallArgumentName, value: ExprNode, span: Option<Span>) -> (r: CallArgument)
        ensures
            r.name == Some(name),
            r.value == value,
            r.modifier is None,
            r.inline_binding is None,
            r.span == span,
    {
        CallArgument { name: Some(name), value, modifier: None, inline_binding: None, span }
    }

    /// This argument with the given modifier.
    pub fn with_modifier(self, modifier: CallArgumentModifier) -> (r: CallArgument)
        ensures
            r.name == self.name,
            r.value == self.value,
            r.modifier == Some(modifier),
            r.inline_binding == self.inline_binding,
            r.span == self.span,
    {
        CallArgument { modifier: Some(modifier), ..self }
    }
}

/// A field assignment inside an object initializer.
#[derive(Debug)]
pub struct ObjectInitializerField {
    pub name: String,
    pub value: ExprNode,
}

/// The initializer of a `new` expression.
#[derive(Debug)]
pub enum NewInitializer {
    Object { fields: Vec<ObjectInitializerField> },
    Collection { elements: Vec<ExprNode> },
}

/// A `new` expression.
#[derive(Debug)]
pub struct NewExpr {
    pub type_path: String,
    pub args: Vec<CallArgument>,
    pub initializer: Option<NewInitializer>,
}

/// A parameter of a lambda.
#[derive(Debug)]
pub struct LambdaParam {
    pub name: String,
    pub ty: Option<String>,
}

/// The body of a lambda.
#[derive(Debug)]
pub enum LambdaBody {
    Expression(Box<ExprNode>),
    Block(String),
}

/// A lambda expression.
#[derive(Debug)]
pub struct LambdaExpr {
    pub params: Vec<LambdaParam>,
    pub captures: Vec<String>,
    pub body: LambdaBody,
    pub is_async: bool,
}

/// A segment of an interpolated string.
#[derive(Debug)]
pub enum InterpolatedStringSegment {
    Text(String),
    Expr(ExprNode),
}

/// A span relative to the start of a quote literal.
#[derive(Clone, Copy, Debug, PartialEq, Eq, Structural)]
pub struct QuoteSourceSpan {
    pub start: usize,
    pub end: usize,
}

/// An interpolation inside a quote literal.
#[derive(Debug)]
pub struct QuoteInterpolation {
    pub placeholder: String,
    pub expression: ExprNode,
    pub expression_text: String,
    pub span: Option<QuoteSourceSpan>,
}

/// A `quote(...)` literal.
#[derive(Debug)]
pub struct QuoteLiteral {
    pub expression: Box<ExprNode>,
    pub source: String,
    pub sanitized: String,
    pub content_span: Option<QuoteSourceSpan>,
    pub interpolations: Vec<QuoteInterpolation>,
    pub hygiene_anchor: usize,
}

/// An arm of a switch expression.
#[derive(Debug)]
pub struct SwitchArm {
    pub expression: ExprNode,
    pub guards: Vec<ExprNode>,
}

/// An expression tree.
#[derive(Debug)]
pub enum ExprNode {
    Literal(LiteralConst),
    Identifier(String),
    Default { explicit_type: Option<String> },
    Unary { op: UnOp, expr: Box<ExprNode>, postfix: bool },
    IndexFromEnd(Box<ExprNode>),
    Range { start: Option<Box<ExprNode>>, end: Option<Box<ExprNode>>, inclusive: bool },
    Binary { op: BinOp, left: Box<ExprNode>, right: Box<ExprNode> },
    Conditional {
        condition: Box<ExprNode>,
        then_branch: Box<ExprNode>,
        else_branch: Box<ExprNode>,
    },
    Switch { value: Box<ExprNode>, arms: Vec<SwitchArm> },
    Cast { target: String, expr: Box<ExprNode>, syntax: CastSyntax },
    IsPattern { value: Box<ExprNode>, pattern: String },
    Lambda(LambdaExpr),
    Parenthesized(Box<ExprNode>),
    Tuple(Vec<ExprNode>),
    ArrayLiteral(Vec<ExprNode>),
    Assign { target: Box<ExprNode>, op: AssignOp, value: Box<ExprNode> },
    Member { base: Box<ExprNode>, member: String, null_conditional: bool },
    Call { callee: Box<ExprNode>, args: Vec<CallArgument>, generics: Option<Vec<String>> },
    Ref { expr: Box<ExprNode>, readonly: bool },
    New(NewExpr),
    Index { base: Box<ExprNode>, indices: Vec<ExprNode>, null_conditional: bool },
    Await { expr: Box<ExprNode> },
    TryPropagate { expr: Box<ExprNode> },
    Throw { expr: Option<Box<ExprNode>> },
    SizeOf(SizeOfOperand),
    AlignOf(SizeOfOperand),
    NameOf(NameOfOperand),
    InlineAsm(String),
    InterpolatedString(Vec<InterpolatedStringSegment>),
    Quote(Box<QuoteLiteral>),
}

/// An expression as it appears in the source: its text, span and parsed tree.
#[derive(Debug)]
pub struct Expression {
    pub text: String,
    pub span: Option<Span>,
    pub node: Option<ExprNode>,
}

impl Expression {
    /// An expression with a parsed tree.
    pub fn with_node(text: String, span: Option<Span>, node: ExprNode) -> (r: Expression)
        ensures
            r.text == text,
            r.span == span,
            r.node == Some(node),
    {
        Expression { text, span, node: Some(node) }
    }
}

/// A named constant declared inside a function body.
#[derive(Debug)]
pub struct ConstDeclarator {
    pub name: String,
    pub initializer: Expression,
    pub span: Option<Span>,
}

/// `const T a = ..., b = ...;`
#[derive(Debug)]
pub struct ConstStatement {
    pub ty: Ty,
    pub declarators: Vec<ConstDeclarator>,
}

/// Whether a variable declaration is `let` (immutable) or `var` (mutable).
#[derive(Clone, Copy, Debug, PartialEq, Eq, Structural)]
pub enum VariableModifier {
    Let,
    Var,
}

/// A variable declared inside a function body.
#[derive(Debug)]
pub struct VariableDeclarator {
    pub name: String,
    pub initializer: Option<Expression>,
}

/// `let a = ...;` or `var T a = ...;`
#[derive(Debug)]
pub struct VariableDeclaration {
    pub modifier: VariableModifier,
    pub type_annotation: Option<Ty>,
    pub declarators: Vec<VariableDeclarator>,
}

/// An `if` statement.
#[derive(Debug)]
pub struct IfStatement {
    pub condition: Expression,
    pub then_branch: Box<Statement>,
    pub else_branch: Option<Box<Statement>>,
}

/// A block of statements.
#[derive(Debug)]
pub struct Block {
    pub statements: Vec<Statement>,
    pub span: Option<Span>,
}

/// The kinds of statements of the language.
#[derive(Debug)]
pub enum StatementKind {
    While,
    DoWhile,
    For,
    Foreach,
    Switch,
    Try,
    Using,
    Lock,
    Checked,
    Atomic,
    Unchecked,
    YieldReturn,
    YieldBreak,
    Fixed,
    Unsafe,
    Break,
    Continue,
    Goto,
    Throw,
    Labeled,
    ConstDeclaration(ConstStatement),
    VariableDeclaration(VariableDeclaration),
    Expression(Expression),
    Return { expression: Option<Expression> },
    Block(Block),
    Empty,
    If(IfStatement),
    Region,
    LocalFunction,
}

/// A statement with its span.
#[derive(Debug)]
pub struct Statement {
    pub span: Option<Span>,
    pub kind: StatementKind,
}

/// How a parameter is passed.
#[derive(Clone, Copy, Debug, PartialEq, Eq, Structural)]
pub enum BindingModifier {
    In,
    Ref,
    Out,
    Value,
}

/// A function parameter.
#[derive(Debug)]
pub struct Parameter {
    pub binding: BindingModifier,
    pub name: String,
    pub ty: Ty,
    pub has_default: bool,
}

/// A function signature.
#[derive(Debug)]
pub struct Signature {
    pub parameters: Vec<Parameter>,
    pub return_type: Ty,
}

/// A function declaration.
#[derive(Debug)]
pub struct FunctionDecl {
    pub name: String,
    pub signature: Signature,
    pub body: Option<Block>,
    pub is_async: bool,
    pub is_constexpr: bool,
    pub is_extern: bool,
    /// The names of the function's generic parameters, when it declares any.
    pub generics: Option<Vec<String>>,
}

/// A function declaration together with where it was declared.
#[derive(Debug)]
pub struct FunctionDeclSymbol {
    pub qualified: String,
    pub function: FunctionDecl,
    pub owner: Option<String>,
    pub namespace: Option<String>,
    pub internal_name: String,
}

} // verus!
