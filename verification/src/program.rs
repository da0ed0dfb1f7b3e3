//! Compiling a source text: parsing, resolving and checking it, and the
//! compiled program that results.

use vstd::prelude::*;
use crate::ast::{
    FunctionDefinition, Program, ProgramV, Statement, TestBlock, functions_view, program_view,
    stmts_view, tests_view,
};
use crate::diagnostic::{CompileError, DiagnosticV};
use crate::parse::parse;
use crate::parser::spec_parse;
use crate::requirements::{Requirements, RequirementsV, requirements_wf};
use crate::source::SourceText;
use crate::validation::{
    fn_names, host_only, law_script_functions_are_not_required, resolve_program, validate,
    validation_result,
};

verus! {

/// What compiling `source` gives: the resolved program and its
/// requirements, or the diagnostics (the parse error alone, or every
/// check that failed).
pub open spec fn spec_compile(source: Seq<char>) -> Result<(ProgramV, RequirementsV), Seq<DiagnosticV>> {
    match spec_parse(source) {
        Err(d) => Err(seq![d]),
        Ok(p) => {
            let q = resolve_program(p);
            match validation_result(q) {
                Ok(reqs) => Ok((q, reqs)),
                Err(ds) => Err(ds),
            }
        },
    }
}

/// A program that parsed and passed every check, with its source and the
/// requirements it places on its host.
#[derive(Debug, PartialEq)]
pub struct CompiledProgram {
    source: SourceText,
    program: Program,
    requirements: Requirements,
}

impl View for CompiledProgram {
    type V = (Seq<char>, ProgramV, RequirementsV);

    closed spec fn view(&self) -> (Seq<char>, ProgramV, RequirementsV) {
        (self.source@, program_view(self.program), self.requirements@)
    }
}

impl CompiledProgram {
    /// The resolved program.
    pub(crate) fn program(&self) -> (r: &Program)
        ensures
            program_view(*r) == self@.1,
    {
        &self.program
    }

    pub fn requirements(&self) -> (r: &Requirements)
        ensures
            r@ == self@.2,
    {
        &self.requirements
    }

    pub fn source(&self) -> (r: &str)
        ensures
            r@ == self@.0,
    {
        self.source.as_str()
    }

    pub fn statements(&self) -> (r: &[Statement])
        ensures
            stmts_view(r@) == self@.1.statements,
    {
        self.program.statements.as_slice()
    }

    pub fn functions(&self) -> (r: &[FunctionDefinition])
        ensures
            functions_view(r@) == self@.1.functions,
    {
        self.program.functions.as_slice()
    }

    pub fn tests(&self) -> (r: &[TestBlock])
        ensures
            tests_view(r@) == self@.1.tests,
    {
        self.program.tests.as_slice()
    }
}

/// Read access to a compiled program's parts.
pub trait ProgramView {
    fn requirements(&self) -> &Requirements;

    fn source(&self) -> &str;

    fn statements(&self) -> &[Statement];

    fn functions(&self) -> &[FunctionDefinition];

    fn tests(&self) -> &[TestBlock];
}

impl ProgramView for CompiledProgram {
    fn requirements(&self) -> (r: &Requirements)
        ensures
            r@ == self@.2,
    {
        &self.requirements
    }

    fn source(&self) -> (r: &str)
        ensures
            r@ == self@.0,
    {
        self.source.as_str()
    }

    fn statements(&self) -> (r: &[Statement])
        ensures
            stmts_view(r@) == self@.1.statements,
    {
        self.program.statements.as_slice()
    }

    fn functions(&self) -> (r: &[FunctionDefinition])
        ensures
            functions_view(r@) == self@.1.functions,
    {
        self.program.functions.as_slice()
    }

    fn tests(&self) -> (r: &[TestBlock])
        ensures
            tests_view(r@) == self@.1.tests,
    {
        self.program.tests.as_slice()
    }
}

/// Compiles extractor source: parses it, resolves its calls and checks it.
pub fn compile(source: &str) -> (r: Result<CompiledProgram, CompileError>)
    ensures
        match spec_compile(source@) {
            Ok((p, reqs)) => r matches Ok(c) && c@ == (source@, p, reqs) && requirements_wf(reqs),
            Err(ds) => r matches Err(e) && e@ == ds,
        },
{
    let mut program = match parse(source) {
        Ok(p) => p,
        Err(e) => {
            proof {
                assert(e@ =~= seq![e@[0]]);
            }
            return Err(e);
        },
    };
    let requirements = match validate(&mut program) {
        Ok(reqs) => reqs,
        Err(e) => {
            return Err(e);
        },
    };
    Ok(CompiledProgram { source: SourceText::new(source), program, requirements })
}


/// Compiling never asks the host for a function that the script defines or
/// for a builtin: only other names, and qualified calls, are required.
pub proof fn law_compiled_requirements_are_external(source: Seq<char>)
    ensures
        spec_compile(source) matches Ok((p, reqs)) ==> host_only(reqs, fn_names(p.functions)),
{
    if let Ok(p0) = spec_parse(source) {
        law_script_functions_are_not_required(resolve_program(p0));
    }
}

proof fn lemma_r_stmts_len(stmts: Seq<crate::ast::StmtV>, b: Set<Seq<char>>, i: int)
    requires
        0 <= i <= stmts.len(),
    ensures
        crate::resolve::r_stmts(stmts, b, i).0.len() == stmts.len() - i,
    decreases stmts.len() - i,
{
    if i < stmts.len() {
        let first = crate::resolve::r_stmt(stmts[i], b);
        lemma_r_stmts_len(stmts, first.1, i + 1);
    }
}

/// Compiling keeps the items of a program one for one: the same functions
/// (names, parameters, places and number of body statements), the same
/// tests but for the calls rewritten in their bodies, as many statements,
/// and the same span. Only calls inside expressions are rewritten.
pub proof fn law_compile_keeps_items(s: Seq<char>)
    requires
        spec_compile(s) is Ok,
    ensures
        spec_parse(s) is Ok,
        ({
            let p = spec_parse(s)->Ok_0;
            let q = spec_compile(s)->Ok_0.0;
            &&& q.functions.len() == p.functions.len()
            &&& forall|i: int| 0 <= i < p.functions.len() ==> (#[trigger] q.functions[i]).name == p.functions[i].name
                && q.functions[i].parameters == p.functions[i].parameters
                && q.functions[i].span == p.functions[i].span
                && q.functions[i].body.len() == p.functions[i].body.len()
            &&& q.tests.len() == p.tests.len()
            &&& forall|i: int| 0 <= i < p.tests.len() ==> (crate::ast::TestBlockV { body: p.tests[i].body, ..(#[trigger] q.tests[i]) }) == p.tests[i]
                && q.tests[i].body.len() == p.tests[i].body.len()
            &&& q.statements.len() == p.statements.len()
            &&& q.span == p.span
        }),
{
    let p = spec_parse(s)->Ok_0;
    let globals = crate::validation::assigned_names(p.statements);
    lemma_r_stmts_len(p.statements, Set::empty(), 0);
    assert forall|i: int| 0 <= i < p.functions.len() implies (#[trigger] resolve_program(p).functions[i]).body.len() == p.functions[i].body.len() by {
        lemma_r_stmts_len(p.functions[i].body, globals + p.functions[i].parameters.to_set(), 0);
    }
    assert forall|i: int| 0 <= i < p.tests.len() implies (#[trigger] resolve_program(p).tests[i]).body.len() == p.tests[i].body.len() by {
        lemma_r_stmts_len(p.tests[i].body, crate::validation::test_bindings(p.tests[i], globals), 0);
    }
}

} // verus!
