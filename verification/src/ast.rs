//! The syntax tree of an extractor program, with its mathematical view.

use vstd::prelude::*;
use crate::source::Span;

verus! {

#[derive(Debug, PartialEq)]
pub struct Program {
    pub functions: Vec<FunctionDefinition>,
    pub tests: Vec<TestBlock>,
    pub statements: Vec<Statement>,
    pub span: Span,
}

#[derive(Debug, PartialEq)]
pub struct TestBlock {
    pub inputs: Vec<TestInput>,
    pub body: Vec<Statement>,
    pub runs_script: bool,
    pub span: Span,
}

#[derive(Debug, PartialEq)]
pub struct TestInput {
    pub name: String,
    pub visibility: Visibility,
    pub value: Expression,
    pub span: Span,
}

#[derive(Debug, PartialEq)]
pub struct FunctionDefinition {
    pub name: String,
    pub parameters: Vec<String>,
    pub body: Vec<Statement>,
    pub span: Span,
}

#[derive(Debug, PartialEq)]
pub struct Statement {
    pub kind: StatementKind,
    pub span: Span,
}

#[derive(Debug, PartialEq)]
pub enum StatementKind {
    Assignment { name: String, operator: AssignmentOperator, visibility: Visibility, value: Expression },
    ComputedAssignment { name: Expression, value: Expression },
    Return(Expression),
    While { condition: Expression, body: Vec<Statement> },
    Loop { body: Vec<Statement> },
    Break,
    Expression(Expression),
}

#[derive(Clone, Copy, Debug, PartialEq, Eq)]
pub enum AssignmentOperator {
    Assign,
    Add,
    Subtract,
}

#[derive(Clone, Copy, Debug, PartialEq, Eq)]
pub enum Visibility {
    Public,
    Private,
}

#[derive(Debug, PartialEq)]
pub struct Expression {
    pub kind: ExpressionKind,
    pub span: Span,
}

#[derive(Debug, PartialEq)]
pub enum ExpressionKind {
    Null,
    Boolean(bool),
    Number(String),
    String(String),
    InterpolatedString(Vec<InterpolatedStringPart>),
    Array(Vec<Expression>),
    Object(Vec<ObjectField>),
    Variable(String),
    Identifier(String),
    FunctionCall { name: String, arguments: Vec<Expression> },
    QualifiedFunctionCall { module: String, name: String, arguments: Vec<Expression> },
    CoreCall { name: String, arguments: Vec<Expression> },
    MethodCall { receiver: Box<Expression>, name: String, multiple: bool, arguments: Vec<Expression> },
    Lambda { parameters: Vec<String>, body: Box<Expression> },
    FunctionalBlock { receiver: Box<Expression>, method: String, body: Vec<Statement> },
    Required(Box<Expression>),
    Unary { operator: UnaryOperator, operand: Box<Expression> },
    Binary { left: Box<Expression>, operator: BinaryOperator, right: Box<Expression> },
    IfElse { condition: Box<Expression>, then_branch: Box<Expression>, else_branch: Box<Expression> },
    BlockIf { condition: Box<Expression>, then_branch: Vec<Statement>, else_branch: Option<Vec<Statement>> },
    Switch { target: Box<Expression>, arms: Vec<SwitchArm> },
    Subscript { receiver: Box<Expression>, index: Box<Expression> },
}

#[derive(Debug, PartialEq)]
pub enum InterpolatedStringPart {
    Literal(String),
    Expression(Expression),
}

#[derive(Debug, PartialEq)]
pub struct ObjectField {
    pub name: String,
    pub value: Expression,
    pub span: Span,
}

#[derive(Debug, PartialEq)]
pub struct SwitchArm {
    pub pattern: SwitchPattern,
    pub value: Expression,
    pub span: Span,
}

#[derive(Debug, PartialEq)]
pub enum SwitchPattern {
    Value(Expression),
    Wildcard,
    Binding(String),
}

#[derive(Clone, Copy, Debug, PartialEq, Eq)]
pub enum UnaryOperator {
    Negate,
    Not,
}

#[derive(Clone, Copy, Debug, PartialEq, Eq)]
pub enum BinaryOperator {
    Or,
    And,
    Equal,
    NotEqual,
    Less,
    LessEqual,
    Greater,
    GreaterEqual,
    Add,
    Subtract,
    Multiply,
    Divide,
    Remainder,
}

// ---------------------------------------------------------------------------
// The mathematical view: the same tree with text as character sequences and
// lists as sequences.
// ---------------------------------------------------------------------------

pub struct ExprV {
    pub kind: ExprKindV,
    pub span: Span,
}

pub enum ExprKindV {
    Null,
    Boolean(bool),
    Number(Seq<char>),
    Str(Seq<char>),
    InterpolatedString(Seq<IPartV>),
    Array(Seq<ExprV>),
    Object(Seq<FieldV>),
    Variable(Seq<char>),
    Identifier(Seq<char>),
    FunctionCall { name: Seq<char>, arguments: Seq<ExprV> },
    QualifiedFunctionCall { module: Seq<char>, name: Seq<char>, arguments: Seq<ExprV> },
    CoreCall { name: Seq<char>, arguments: Seq<ExprV> },
    MethodCall { receiver: Box<ExprV>, name: Seq<char>, multiple: bool, arguments: Seq<ExprV> },
    Lambda { parameters: Seq<Seq<char>>, body: Box<ExprV> },
    FunctionalBlock { receiver: Box<ExprV>, method: Seq<char>, body: Seq<StmtV> },
    Required(Box<ExprV>),
    Unary { operator: UnaryOperator, operand: Box<ExprV> },
    Binary { left: Box<ExprV>, operator: BinaryOperator, right: Box<ExprV> },
    IfElse { condition: Box<ExprV>, then_branch: Box<ExprV>, else_branch: Box<ExprV> },
    BlockIf { condition: Box<ExprV>, then_branch: Seq<StmtV>, else_branch: Option<Seq<StmtV>> },
    Switch { target: Box<ExprV>, arms: Seq<ArmV> },
    Subscript { receiver: Box<ExprV>, index: Box<ExprV> },
}

pub enum IPartV {
    Literal(Seq<char>),
    Expression(ExprV),
}

pub struct FieldV {
    pub name: Seq<char>,
    pub value: ExprV,
    pub span: Span,
}

pub struct ArmV {
    pub pattern: PatternV,
    pub value: ExprV,
    pub span: Span,
}

pub enum PatternV {
    Value(ExprV),
    Wildcard,
    Binding(Seq<char>),
}

pub struct StmtV {
    pub kind: StmtKindV,
    pub span: Span,
}

pub enum StmtKindV {
    Assignment { name: Seq<char>, operator: AssignmentOperator, visibility: Visibility, value: ExprV },
    ComputedAssignment { name: ExprV, value: ExprV },
    Return(ExprV),
    While { condition: ExprV, body: Seq<StmtV> },
    Loop { body: Seq<StmtV> },
    Break,
    Expression(ExprV),
}

pub struct TestInputV {
    pub name: Seq<char>,
    pub visibility: Visibility,
    pub value: ExprV,
    pub span: Span,
}

pub struct TestBlockV {
    pub inputs: Seq<TestInputV>,
    pub body: Seq<StmtV>,
    pub runs_script: bool,
    pub span: Span,
}

pub struct FunctionV {
    pub name: Seq<char>,
    pub parameters: Seq<Seq<char>>,
    pub body: Seq<StmtV>,
    pub span: Span,
}

pub struct ProgramV {
    pub functions: Seq<FunctionV>,
    pub tests: Seq<TestBlockV>,
    pub statements: Seq<StmtV>,
    pub span: Span,
}

pub open spec fn strings_view(s: Seq<String>) -> Seq<Seq<char>>
    decreases s.len(),
{
    if s.len() == 0 {
        seq![]
    } else {
        strings_view(s.drop_last()).push(s.last()@)
    }
}

pub open spec fn expr_view(e: Expression) -> ExprV
    decreases e,
{
    ExprV { kind: kind_view(e.kind), span: e.span }
}

pub open spec fn kind_view(k: ExpressionKind) -> ExprKindV
    decreases k,
{
    match k {
        ExpressionKind::Null => ExprKindV::Null,
        ExpressionKind::Boolean(b) => ExprKindV::Boolean(b),
        ExpressionKind::Number(s) => ExprKindV::Number(s@),
        ExpressionKind::String(s) => ExprKindV::Str(s@),
        ExpressionKind::InterpolatedString(parts) => ExprKindV::InterpolatedString(iparts_view(parts@)),
        ExpressionKind::Array(values) => ExprKindV::Array(exprs_view(values@)),
        ExpressionKind::Object(fields) => ExprKindV::Object(fields_view(fields@)),
        ExpressionKind::Variable(s) => ExprKindV::Variable(s@),
        ExpressionKind::Identifier(s) => ExprKindV::Identifier(s@),
        ExpressionKind::FunctionCall { name, arguments } => ExprKindV::FunctionCall {
            name: name@,
            arguments: exprs_view(arguments@),
        },
        ExpressionKind::QualifiedFunctionCall { module, name, arguments } => ExprKindV::QualifiedFunctionCall {
            module: module@,
            name: name@,
            arguments: exprs_view(arguments@),
        },
        ExpressionKind::CoreCall { name, arguments } => ExprKindV::CoreCall {
            name: name@,
            arguments: exprs_view(arguments@),
        },
        ExpressionKind::MethodCall { receiver, name, multiple, arguments } => ExprKindV::MethodCall {
            receiver: Box::new(expr_view(*receiver)),
            name: name@,
            multiple,
            arguments: exprs_view(arguments@),
        },
        ExpressionKind::Lambda { parameters, body } => ExprKindV::Lambda {
            parameters: strings_view(parameters@),
            body: Box::new(expr_view(*body)),
        },
        ExpressionKind::FunctionalBlock { receiver, method, body } => ExprKindV::FunctionalBlock {
            receiver: Box::new(expr_view(*receiver)),
            method: method@,
            body: stmts_view(body@),
        },
        ExpressionKind::Required(inner) => ExprKindV::Required(Box::new(expr_view(*inner))),
        ExpressionKind::Unary { operator, operand } => ExprKindV::Unary {
            operator,
            operand: Box::new(expr_view(*operand)),
        },
        ExpressionKind::Binary { left, operator, right } => ExprKindV::Binary {
            left: Box::new(expr_view(*left)),
            operator,
            right: Box::new(expr_view(*right)),
        },
        ExpressionKind::IfElse { condition, then_branch, else_branch } => ExprKindV::IfElse {
            condition: Box::new(expr_view(*condition)),
            then_branch: Box::new(expr_view(*then_branch)),
            else_branch: Box::new(expr_view(*else_branch)),
        },
        ExpressionKind::BlockIf { condition, then_branch, else_branch } => ExprKindV::BlockIf {
            condition: Box::new(expr_view(*condition)),
            then_branch: stmts_view(then_branch@),
            else_branch: match else_branch {
                Some(b) => Some(stmts_view(b@)),
                None => None,
            },
        },
        ExpressionKind::Switch { target, arms } => ExprKindV::Switch {
            target: Box::new(expr_view(*target)),
            arms: arms_view(arms@),
        },
        ExpressionKind::Subscript { receiver, index } => ExprKindV::Subscript {
            receiver: Box::new(expr_view(*receiver)),
            index: Box::new(expr_view(*index)),
        },
    }
}

pub open spec fn exprs_view(s: Seq<Expression>) -> Seq<ExprV>
    decreases s,
{
    if s.len() == 0 {
        seq![]
    } else {
        proof {
            assert(decreases_to!(s => s.drop_last()));
        }
        exprs_view(s.drop_last()).push(expr_view(s.last()))
    }
}

pub open spec fn ipart_view(p: InterpolatedStringPart) -> IPartV
    decreases p,
{
    match p {
        InterpolatedStringPart::Literal(s) => IPartV::Literal(s@),
        InterpolatedStringPart::Expression(e) => IPartV::Expression(expr_view(e)),
    }
}

pub open spec fn iparts_view(s: Seq<InterpolatedStringPart>) -> Seq<IPartV>
    decreases s,
{
    if s.len() == 0 {
        seq![]
    } else {
        proof {
            assert(decreases_to!(s => s.drop_last()));
        }
        iparts_view(s.drop_last()).push(ipart_view(s.last()))
    }
}

pub open spec fn field_view(f: ObjectField) -> FieldV
    decreases f,
{
    FieldV { name: f.name@, value: expr_view(f.value), span: f.span }
}

pub open spec fn fields_view(s: Seq<ObjectField>) -> Seq<FieldV>
    decreases s,
{
    if s.len() == 0 {
        seq![]
    } else {
        proof {
            assert(decreases_to!(s => s.drop_last()));
        }
        fields_view(s.drop_last()).push(field_view(s.last()))
    }
}

pub open spec fn pattern_view(p: SwitchPattern) -> PatternV
    decreases p,
{
    match p {
        SwitchPattern::Value(e) => PatternV::Value(expr_view(e)),
        SwitchPattern::Wildcard => PatternV::Wildcard,
        SwitchPattern::Binding(s) => PatternV::Binding(s@),
    }
}

pub open spec fn arm_view(a: SwitchArm) -> ArmV
    decreases a,
{
    ArmV { pattern: pattern_view(a.pattern), value: expr_view(a.value), span: a.span }
}

pub open spec fn arms_view(s: Seq<SwitchArm>) -> Seq<ArmV>
    decreases s,
{
    if s.len() == 0 {
        seq![]
    } else {
        proof {
            assert(decreases_to!(s => s.drop_last()));
        }
        arms_view(s.drop_last()).push(arm_view(s.last()))
    }
}

pub open spec fn stmt_view(st: Statement) -> StmtV
    decreases st,
{
    StmtV { kind: stmt_kind_view(st.kind), span: st.span }
}

pub open spec fn stmt_kind_view(k: StatementKind) -> StmtKindV
    decreases k,
{
    match k {
        StatementKind::Assignment { name, operator, visibility, value } => StmtKindV::Assignment {
            name: name@,
            operator,
            visibility,
            value: expr_view(value),
        },
        StatementKind::ComputedAssignment { name, value } => StmtKindV::ComputedAssignment {
            name: expr_view(name),
            value: expr_view(value),
        },
        StatementKind::Return(e) => StmtKindV::Return(expr_view(e)),
        StatementKind::While { condition, body } => StmtKindV::While {
            condition: expr_view(condition),
            body: stmts_view(body@),
        },
        StatementKind::Loop { body } => StmtKindV::Loop { body: stmts_view(body@) },
        StatementKind::Break => StmtKindV::Break,
        StatementKind::Expression(e) => StmtKindV::Expression(expr_view(e)),
    }
}

pub open spec fn stmts_view(s: Seq<Statement>) -> Seq<StmtV>
    decreases s,
{
    if s.len() == 0 {
        seq![]
    } else {
        proof {
            assert(decreases_to!(s => s.drop_last()));
        }
        stmts_view(s.drop_last()).push(stmt_view(s.last()))
    }
}

pub open spec fn test_input_view(t: TestInput) -> TestInputV {
    TestInputV { name: t.name@, visibility: t.visibility, value: expr_view(t.value), span: t.span }
}

pub open spec fn test_inputs_view(s: Seq<TestInput>) -> Seq<TestInputV>
    decreases s.len(),
{
    if s.len() == 0 {
        seq![]
    } else {
        test_inputs_view(s.drop_last()).push(test_input_view(s.last()))
    }
}

pub open spec fn test_view(t: TestBlock) -> TestBlockV {
    TestBlockV {
        inputs: test_inputs_view(t.inputs@),
        body: stmts_view(t.body@),
        runs_script: t.runs_script,
        span: t.span,
    }
}

pub open spec fn tests_view(s: Seq<TestBlock>) -> Seq<TestBlockV>
    decreases s.len(),
{
    if s.len() == 0 {
        seq![]
    } else {
        tests_view(s.drop_last()).push(test_view(s.last()))
    }
}

pub open spec fn function_view(f: FunctionDefinition) -> FunctionV {
    FunctionV {
        name: f.name@,
        parameters: strings_view(f.parameters@),
        body: stmts_view(f.body@),
        span: f.span,
    }
}

pub open spec fn functions_view(s: Seq<FunctionDefinition>) -> Seq<FunctionV>
    decreases s.len(),
{
    if s.len() == 0 {
        seq![]
    } else {
        functions_view(s.drop_last()).push(function_view(s.last()))
    }
}

pub open spec fn program_view(p: Program) -> ProgramV {
    ProgramV {
        functions: functions_view(p.functions@),
        tests: tests_view(p.tests@),
        statements: stmts_view(p.statements@),
        span: p.span,
    }
}

pub proof fn lemma_strings_push(s: Seq<String>, x: String)
    ensures
        strings_view(s.push(x)) == strings_view(s).push(x@),
{
    assert(s.push(x).drop_last() =~= s);
}

pub proof fn lemma_strings_len(s: Seq<String>)
    ensures
        strings_view(s).len() == s.len(),
    decreases s.len(),
{
    if s.len() > 0 {
        lemma_strings_len(s.drop_last());
    }
}

pub proof fn lemma_strings_index(s: Seq<String>, i: int)
    requires
        0 <= i < s.len(),
    ensures
        strings_view(s)[i] == s[i]@,
        strings_view(s).len() == s.len(),
    decreases s.len(),
{
    lemma_strings_len(s);
    if i < s.len() - 1 {
        lemma_strings_index(s.drop_last(), i);
    }
}


pub proof fn lemma_exprs_push(s: Seq<Expression>, x: Expression)
    ensures
        exprs_view(s.push(x)) == exprs_view(s).push(expr_view(x)),
{
    assert(s.push(x).drop_last() =~= s);
}

pub proof fn lemma_exprs_len(s: Seq<Expression>)
    ensures
        exprs_view(s).len() == s.len(),
    decreases s.len(),
{
    if s.len() > 0 {
        lemma_exprs_len(s.drop_last());
    }
}

pub proof fn lemma_exprs_index(s: Seq<Expression>, i: int)
    requires
        0 <= i < s.len(),
    ensures
        exprs_view(s)[i] == expr_view(s[i]),
        exprs_view(s).len() == s.len(),
    decreases s.len(),
{
    lemma_exprs_len(s);
    if i < s.len() - 1 {
        lemma_exprs_index(s.drop_last(), i);
    }
}


pub proof fn lemma_iparts_push(s: Seq<InterpolatedStringPart>, x: InterpolatedStringPart)
    ensures
        iparts_view(s.push(x)) == iparts_view(s).push(ipart_view(x)),
{
    assert(s.push(x).drop_last() =~= s);
}

pub proof fn lemma_iparts_len(s: Seq<InterpolatedStringPart>)
    ensures
        iparts_view(s).len() == s.len(),
    decreases s.len(),
{
    if s.len() > 0 {
        lemma_iparts_len(s.drop_last());
    }
}

pub proof fn lemma_iparts_index(s: Seq<InterpolatedStringPart>, i: int)
    requires
        0 <= i < s.len(),
    ensures
        iparts_view(s)[i] == ipart_view(s[i]),
        iparts_view(s).len() == s.len(),
    decreases s.len(),
{
    lemma_iparts_len(s);
    if i < s.len() - 1 {
        lemma_iparts_index(s.drop_last(), i);
    }
}


pub proof fn lemma_fields_push(s: Seq<ObjectField>, x: ObjectField)
    ensures
        fields_view(s.push(x)) == fields_view(s).push(field_view(x)),
{
    assert(s.push(x).drop_last() =~= s);
}

pub proof fn lemma_fields_len(s: Seq<ObjectField>)
    ensures
        fields_view(s).len() == s.len(),
    decreases s.len(),
{
    if s.len() > 0 {
        lemma_fields_len(s.drop_last());
    }
}

pub proof fn lemma_fields_index(s: Seq<ObjectField>, i: int)
    requires
        0 <= i < s.len(),
    ensures
        fields_view(s)[i] == field_view(s[i]),
        fields_view(s).len() == s.len(),
    decreases s.len(),
{
    lemma_fields_len(s);
    if i < s.len() - 1 {
        lemma_fields_index(s.drop_last(), i);
    }
}


pub proof fn lemma_arms_push(s: Seq<SwitchArm>, x: SwitchArm)
    ensures
        arms_view(s.push(x)) == arms_view(s).push(arm_view(x)),
{
    assert(s.push(x).drop_last() =~= s);
}

pub proof fn lemma_arms_len(s: Seq<SwitchArm>)
    ensures
        arms_view(s).len() == s.len(),
    decreases s.len(),
{
    if s.len() > 0 {
        lemma_arms_len(s.drop_last());
    }
}

pub proof fn lemma_arms_index(s: Seq<SwitchArm>, i: int)
    requires
        0 <= i < s.len(),
    ensures
        arms_view(s)[i] == arm_view(s[i]),
        arms_view(s).len() == s.len(),
    decreases s.len(),
{
    lemma_arms_len(s);
    if i < s.len() - 1 {
        lemma_arms_index(s.drop_last(), i);
    }
}


pub proof fn lemma_stmts_push(s: Seq<Statement>, x: Statement)
    ensures
        stmts_view(s.push(x)) == stmts_view(s).push(stmt_view(x)),
{
    assert(s.push(x).drop_last() =~= s);
}

pub proof fn lemma_stmts_len(s: Seq<Statement>)
    ensures
        stmts_view(s).len() == s.len(),
    decreases s.len(),
{
    if s.len() > 0 {
        lemma_stmts_len(s.drop_last());
    }
}

pub proof fn lemma_stmts_index(s: Seq<Statement>, i: int)
    requires
        0 <= i < s.len(),
    ensures
        stmts_view(s)[i] == stmt_view(s[i]),
        stmts_view(s).len() == s.len(),
    decreases s.len(),
{
    lemma_stmts_len(s);
    if i < s.len() - 1 {
        lemma_stmts_index(s.drop_last(), i);
    }
}


pub proof fn lemma_test_inputs_push(s: Seq<TestInput>, x: TestInput)
    ensures
        test_inputs_view(s.push(x)) == test_inputs_view(s).push(test_input_view(x)),
{
    assert(s.push(x).drop_last() =~= s);
}

pub proof fn lemma_test_inputs_len(s: Seq<TestInput>)
    ensures
        test_inputs_view(s).len() == s.len(),
    decreases s.len(),
{
    if s.len() > 0 {
        lemma_test_inputs_len(s.drop_last());
    }
}

pub proof fn lemma_test_inputs_index(s: Seq<TestInput>, i: int)
    requires
        0 <= i < s.len(),
    ensures
        test_inputs_view(s)[i] == test_input_view(s[i]),
        test_inputs_view(s).len() == s.len(),
    decreases s.len(),
{
    lemma_test_inputs_len(s);
    if i < s.len() - 1 {
        lemma_test_inputs_index(s.drop_last(), i);
    }
}


pub proof fn lemma_tests_push(s: Seq<TestBlock>, x: TestBlock)
    ensures
        tests_view(s.push(x)) == tests_view(s).push(test_view(x)),
{
    assert(s.push(x).drop_last() =~= s);
}

pub proof fn lemma_tests_len(s: Seq<TestBlock>)
    ensures
        tests_view(s).len() == s.len(),
    decreases s.len(),
{
    if s.len() > 0 {
        lemma_tests_len(s.drop_last());
    }
}

pub proof fn lemma_tests_index(s: Seq<TestBlock>, i: int)
    requires
        0 <= i < s.len(),
    ensures
        tests_view(s)[i] == test_view(s[i]),
        tests_view(s).len() == s.len(),
    decreases s.len(),
{
    lemma_tests_len(s);
    if i < s.len() - 1 {
        lemma_tests_index(s.drop_last(), i);
    }
}


pub proof fn lemma_functions_push(s: Seq<FunctionDefinition>, x: FunctionDefinition)
    ensures
        functions_view(s.push(x)) == functions_view(s).push(function_view(x)),
{
    assert(s.push(x).drop_last() =~= s);
}

pub proof fn lemma_functions_len(s: Seq<FunctionDefinition>)
    ensures
        functions_view(s).len() == s.len(),
    decreases s.len(),
{
    if s.len() > 0 {
        lemma_functions_len(s.drop_last());
    }
}

pub proof fn lemma_functions_index(s: Seq<FunctionDefinition>, i: int)
    requires
        0 <= i < s.len(),
    ensures
        functions_view(s)[i] == function_view(s[i]),
        functions_view(s).len() == s.len(),
    decreases s.len(),
{
    lemma_functions_len(s);
    if i < s.len() - 1 {
        lemma_functions_index(s.drop_last(), i);
    }
}


impl Program {
    pub fn new(
        functions: Vec<FunctionDefinition>,
        tests: Vec<TestBlock>,
        statements: Vec<Statement>,
        span: Span,
    ) -> (r: Self)
        ensures
            r.functions == functions,
            r.tests == tests,
            r.statements == statements,
            r.span == span,
    {
        Program { functions, tests, statements, span }
    }

    pub fn functions(&self) -> (r: &[FunctionDefinition])
        ensures
            r@ == self.functions@,
    {
        self.functions.as_slice()
    }

    pub fn tests(&self) -> (r: &[TestBlock])
        ensures
            r@ == self.tests@,
    {
        self.tests.as_slice()
    }

    pub fn statements(&self) -> (r: &[Statement])
        ensures
            r@ == self.statements@,
    {
        self.statements.as_slice()
    }

    pub fn span(&self) -> (r: Span)
        ensures
            r == self.span,
    {
        self.span
    }
}

impl TestBlock {
    pub fn new(inputs: Vec<TestInput>, body: Vec<Statement>, runs_script: bool, span: Span) -> (r: Self)
        ensures
            r.inputs == inputs,
            r.body == body,
            r.runs_script == runs_script,
            r.span == span,
    {
        TestBlock { inputs, body, runs_script, span }
    }

    pub fn inputs(&self) -> (r: &[TestInput])
        ensures
            r@ == self.inputs@,
    {
        self.inputs.as_slice()
    }

    pub fn body(&self) -> (r: &[Statement])
        ensures
            r@ == self.body@,
    {
        self.body.as_slice()
    }

    pub fn runs_script(&self) -> (r: bool)
        ensures
            r == self.runs_script,
    {
        self.runs_script
    }

    pub fn span(&self) -> (r: Span)
        ensures
            r == self.span,
    {
        self.span
    }
}

impl TestInput {
    pub fn new(name: String, visibility: Visibility, value: Expression, span: Span) -> (r: Self)
        ensures
            r.name == name,
            r.visibility == visibility,
            r.value == value,
            r.span == span,
    {
        TestInput { name, visibility, value, span }
    }

    pub fn name(&self) -> (r: &str)
        ensures
            r@ == self.name@,
    {
        self.name.as_str()
    }

    pub fn visibility(&self) -> (r: Visibility)
        ensures
            r == self.visibility,
    {
        self.visibility
    }

    pub fn value(&self) -> (r: &Expression)
        ensures
            *r == self.value,
    {
        &self.value
    }

    pub fn span(&self) -> (r: Span)
        ensures
            r == self.span,
    {
        self.span
    }
}

impl FunctionDefinition {
    pub fn new(name: String, parameters: Vec<String>, body: Vec<Statement>, span: Span) -> (r: Self)
        ensures
            r.name == name,
            r.parameters == parameters,
            r.body == body,
            r.span == span,
    {
        FunctionDefinition { name, parameters, body, span }
    }

    pub fn name(&self) -> (r: &str)
        ensures
            r@ == self.name@,
    {
        self.name.as_str()
    }

    pub fn parameters(&self) -> (r: &[String])
        ensures
            r@ == self.parameters@,
    {
        self.parameters.as_slice()
    }

    pub fn body(&self) -> (r: &[Statement])
        ensures
            r@ == self.body@,
    {
        self.body.as_slice()
    }

    pub fn span(&self) -> (r: Span)
        ensures
            r == self.span,
    {
        self.span
    }
}

impl Statement {
    pub fn new(kind: StatementKind, span: Span) -> (r: Self)
        ensures
            r.kind == kind,
            r.span == span,
    {
        Statement { kind, span }
    }

    pub fn kind(&self) -> (r: &StatementKind)
        ensures
            *r == self.kind,
    {
        &self.kind
    }

    pub fn span(&self) -> (r: Span)
        ensures
            r == self.span,
    {
        self.span
    }
}

impl Expression {
    pub fn new(kind: ExpressionKind, span: Span) -> (r: Self)
        ensures
            r.kind == kind,
            r.span == span,
    {
        Expression { kind, span }
    }

    pub fn kind(&self) -> (r: &ExpressionKind)
        ensures
            *r == self.kind,
    {
        &self.kind
    }

    pub fn span(&self) -> (r: Span)
        ensures
            r == self.span,
    {
        self.span
    }
}

impl ObjectField {
    pub fn new(name: String, value: Expression, span: Span) -> (r: Self)
        ensures
            r.name == name,
            r.value == value,
            r.span == span,
    {
        ObjectField { name, value, span }
    }

    pub fn name(&self) -> (r: &str)
        ensures
            r@ == self.name@,
    {
        self.name.as_str()
    }

    pub fn value(&self) -> (r: &Expression)
        ensures
            *r == self.value,
    {
        &self.value
    }

    pub fn span(&self) -> (r: Span)
        ensures
            r == self.span,
    {
        self.span
    }
}

impl SwitchArm {
    pub fn new(pattern: SwitchPattern, value: Expression, span: Span) -> (r: Self)
        ensures
            r.pattern == pattern,
            r.value == value,
            r.span == span,
    {
        SwitchArm { pattern, value, span }
    }

    pub fn pattern(&self) -> (r: &SwitchPattern)
        ensures
            *r == self.pattern,
    {
        &self.pattern
    }

    pub fn value(&self) -> (r: &Expression)
        ensures
            *r == self.value,
    {
        &self.value
    }

    pub fn span(&self) -> (r: Span)
        ensures
            r == self.span,
    {
        self.span
    }
}

} // verus!
