//! The intermediate representation: a stack of name-keyed namespaces built
//! from the syntax tree. Building resolves every called name, tolerating
//! forward references through placeholder entries, and fails compilation if
//! any placeholder survives to the end of the program.

use vstd::prelude::*;

use crate::parser::{deep_view_exprs, lemma_deep_view_exprs, Expr, ExprView, Node, NodeView,
    ParseError, ParseErrorView, Program, Statement, StatementView};
use crate::table::{spec_insert, spec_lookup};

verus! {

/// One instruction of the shared instruction set: push a string literal,
/// call a named function, or pop one string and emit it.
#[derive(Debug)]
pub enum Instruction {
    PushString(String),
    Call(String),
    Write,
}

/// The mathematical value of an [`Instruction`].
pub enum InstructionView {
    PushString(Seq<char>),
    Call(Seq<char>),
    Write,
}

impl DeepView for Instruction {
    type V = InstructionView;

    open spec fn deep_view(&self) -> InstructionView {
        match self {
            Instruction::PushString(s) => InstructionView::PushString(s@),
            Instruction::Call(s) => InstructionView::Call(s@),
            Instruction::Write => InstructionView::Write,
        }
    }
}

impl Clone for Instruction {
    fn clone(&self) -> (r: Instruction)
        ensures
            r.deep_view() == self.deep_view(),
    {
        match self {
            Instruction::PushString(s) => Instruction::PushString(s.clone()),
            Instruction::Call(s) => Instruction::Call(s.clone()),
            Instruction::Write => Instruction::Write,
        }
    }
}

/// What a name in scope resolves to: a fully built function body, a
/// placeholder for a name called before its definition, a compiler-known
/// built-in, or the reserved variable tag.
#[derive(Debug)]
pub enum ScopeElement {
    Function(Vec<Instruction>),
    PlaceholderFunction,
    BuiltInFunction,
    Variable,
}

/// The mathematical value of a [`ScopeElement`].
pub enum ScopeElementView {
    Function(Seq<InstructionView>),
    PlaceholderFunction,
    BuiltInFunction,
    Variable,
}

impl DeepView for ScopeElement {
    type V = ScopeElementView;

    open spec fn deep_view(&self) -> ScopeElementView {
        match self {
            ScopeElement::Function(body) => ScopeElementView::Function(body.deep_view()),
            ScopeElement::PlaceholderFunction => ScopeElementView::PlaceholderFunction,
            ScopeElement::BuiltInFunction => ScopeElementView::BuiltInFunction,
            ScopeElement::Variable => ScopeElementView::Variable,
        }
    }
}

impl Clone for ScopeElement {
    fn clone(&self) -> (r: ScopeElement)
        ensures
            r.deep_view() == self.deep_view(),
    {
        match self {
            ScopeElement::Function(body) => {
                let copy = body.clone();
                proof {
                    assert forall|i: int| 0 <= i < body.len() implies copy.deep_view()[i]
                        == body.deep_view()[i] by {
                        assert(vstd::pervasive::cloned::<Instruction>(body[i], copy[i]));
                    }
                    assert(copy.deep_view() =~= body.deep_view());
                }
                ScopeElement::Function(copy)
            },
            ScopeElement::PlaceholderFunction => ScopeElement::PlaceholderFunction,
            ScopeElement::BuiltInFunction => ScopeElement::BuiltInFunction,
            ScopeElement::Variable => ScopeElement::Variable,
        }
    }
}

/// A fault that stops compilation, reported with a non-zero exit by the
/// surrounding command.
#[derive(Debug)]
pub enum CompileError {
    /// The program could not be parsed.
    Parse(ParseError),
    /// A function was defined twice.
    FunctionRedefined(String),
    /// A function was defined over a built-in, which may not be shadowed.
    BuiltInRedefined(String),
    /// A function was defined over a name bound to a variable.
    VariableRedefined(String),
    /// A call of a name bound to a variable.
    CalledVariable(String),
    /// Names that were called somewhere but defined nowhere, in order of
    /// first mention.
    UndefinedFunctions(Vec<String>),
    /// The program defines no `main` function to start from.
    NoMainFunction,
    /// A function name whose encoding does not fit a 16-bit length field.
    NameTooLong(String),
    /// A string operand whose encoding does not fit a 16-bit length field,
    /// in the named function.
    StringTooLong(String),
    /// A function whose encoded body does not fit a 32-bit length field.
    BodyTooLarge(String),
    /// A program whose encoded body does not fit a 32-bit length field.
    ProgramTooLarge,
}

/// The mathematical value of a [`CompileError`].
pub enum CompileErrorView {
    Parse(ParseErrorView),
    FunctionRedefined(Seq<char>),
    BuiltInRedefined(Seq<char>),
    VariableRedefined(Seq<char>),
    CalledVariable(Seq<char>),
    UndefinedFunctions(Seq<Seq<char>>),
    NoMainFunction,
    NameTooLong(Seq<char>),
    StringTooLong(Seq<char>),
    BodyTooLarge(Seq<char>),
    ProgramTooLarge,
}

impl DeepView for CompileError {
    type V = CompileErrorView;

    open spec fn deep_view(&self) -> CompileErrorView {
        match self {
            CompileError::Parse(e) => CompileErrorView::Parse(e.deep_view()),
            CompileError::FunctionRedefined(n) => CompileErrorView::FunctionRedefined(n@),
            CompileError::BuiltInRedefined(n) => CompileErrorView::BuiltInRedefined(n@),
            CompileError::VariableRedefined(n) => CompileErrorView::VariableRedefined(n@),
            CompileError::CalledVariable(n) => CompileErrorView::CalledVariable(n@),
            CompileError::UndefinedFunctions(ns) => CompileErrorView::UndefinedFunctions(
                ns.deep_view(),
            ),
            CompileError::NoMainFunction => CompileErrorView::NoMainFunction,
            CompileError::NameTooLong(n) => CompileErrorView::NameTooLong(n@),
            CompileError::StringTooLong(n) => CompileErrorView::StringTooLong(n@),
            CompileError::BodyTooLarge(n) => CompileErrorView::BodyTooLarge(n@),
            CompileError::ProgramTooLarge => CompileErrorView::ProgramTooLarge,
        }
    }
}

/// The mathematical value of one namespace: its entries in insertion order.
pub type NamespaceView = Seq<(Seq<char>, ScopeElementView)>;

/// The mathematical value of the scope stack, innermost namespace first.
pub type ScopeView = Seq<NamespaceView>;

/// One namespace: a name-keyed table of scope elements that keeps its
/// insertion order.
#[derive(Debug)]
pub struct Namespace {
    entries: Vec<(String, ScopeElement)>,
}

impl View for Namespace {
    type V = NamespaceView;

    closed spec fn view(&self) -> NamespaceView {
        self.entries.deep_view()
    }
}

impl DeepView for Namespace {
    type V = NamespaceView;

    open spec fn deep_view(&self) -> NamespaceView {
        self.view()
    }
}

impl Namespace {
    /// Builds an empty namespace.
    pub fn new() -> (ns: Namespace)
        ensures
            ns@ == Seq::<(Seq<char>, ScopeElementView)>::empty(),
    {
        let entries = Vec::<(String, ScopeElement)>::new();
        proof {
            assert(entries.deep_view() =~= Seq::<(Seq<char>, ScopeElementView)>::empty());
        }
        Namespace { entries }
    }

    /// How many names the namespace binds.
    pub fn len(&self) -> (n: usize)
        ensures
            n == self@.len(),
    {
        self.entries.len()
    }

    /// The entry at the given position, in insertion order.
    pub fn entry_at(&self, i: usize) -> (r: (&String, &ScopeElement))
        requires
            i < self@.len(),
        ensures
            r.0@ == self@[i as int].0,
            r.1.deep_view() == self@[i as int].1,
    {
        (&self.entries[i].0, &self.entries[i].1)
    }

    /// The element bound to the name, if any.
    pub fn get(&self, name: &String) -> (r: Option<&ScopeElement>)
        ensures
            match r {
                Some(e) => spec_lookup(self@, name@) == Some(e.deep_view()),
                None => spec_lookup(self@, name@) is None,
            },
    {
        let ghost entries = self@;
        let mut i: usize = 0;
        while i < self.entries.len()
            invariant
                i <= entries.len(),
                entries == self@,
                forall|j: int| 0 <= j < i ==> entries[j].0 != name@,
            decreases entries.len() - i,
        {
            if self.entries[i].0.eq(name) {
                proof {
                    crate::table::lemma_lookup_skip(entries, name@, i as int);
                    assert(entries.skip(i as int)[0] == entries[i as int]);
                }
                return Some(&self.entries[i].1);
            }
            i += 1;
        }
        proof {
            crate::table::lemma_lookup_skip(entries, name@, i as int);
            assert(entries.skip(i as int) =~= Seq::<(Seq<char>, ScopeElementView)>::empty());
        }
        None
    }

    /// Binds the name to the element: replaces the entry already carrying
    /// the name, or appends a new one.
    pub fn insert(&mut self, name: String, element: ScopeElement)
        ensures
            final(self)@ == spec_insert(old(self)@, name@, element.deep_view()),
    {
        let ghost entries = self@;
        let mut i: usize = 0;
        while i < self.entries.len()
            invariant
                i <= entries.len(),
                entries == self@,
                entries == old(self)@,
                forall|j: int| 0 <= j < i ==> entries[j].0 != name@,
            decreases entries.len() - i,
        {
            if self.entries[i].0.eq(&name) {
                proof {
                    assert(entries[i as int].0 == name@);
                    crate::table::lemma_insert_update(entries, name@, element.deep_view(), i as int);
                }
                let ghost prevec = self.entries@;
                self.entries[i] = (name, element);
                proof {
                    assert(self.entries@[i as int].deep_view() == (name@, element.deep_view()));
                    assert forall|j: int| 0 <= j < self.entries@.len() implies self@[j]
                        == entries.update(i as int, (name@, element.deep_view()))[j] by {
                        if j != i {
                            assert(self.entries@[j] == prevec[j]);
                            assert(entries[j] == prevec[j].deep_view());
                        }
                    }
                    assert(self@ =~= entries.update(i as int, (name@, element.deep_view())));
                    assert(self@ =~= spec_insert(entries, name@, element.deep_view()));
                }
                return ;
            }
            i += 1;
        }
        proof {
            crate::table::lemma_insert_append(entries, name@, element.deep_view());
        }
        let ghost prevec = self.entries@;
        self.entries.push((name, element));
        proof {
            assert forall|j: int| 0 <= j < self.entries@.len() implies self@[j]
                == entries.push((name@, element.deep_view()))[j] by {
                if j < entries.len() {
                    assert(self.entries@[j] == prevec[j]);
                    assert(entries[j] == prevec[j].deep_view());
                }
            }
            assert(self@ =~= entries.push((name@, element.deep_view())));
            assert(self@ =~= spec_insert(entries, name@, element.deep_view()));
        }
    }
}

/// What one namespace level resolves the name to, paired with the level's
/// position: lookup walks the scope stack from the innermost level outwards.
pub open spec fn spec_scope_lookup(scopes: ScopeView, name: Seq<char>) -> Option<
    (int, ScopeElementView),
>
    decreases scopes.len(),
{
    if scopes.len() == 0 {
        None
    } else {
        match spec_lookup(scopes[0], name) {
            Some(e) => Some((0, e)),
            None => match spec_scope_lookup(scopes.drop_first(), name) {
                Some(r) => Some((r.0 + 1, r.1)),
                None => None,
            },
        }
    }
}

/// The scope stack after binding the name in the innermost namespace, the
/// one pushed last.
pub open spec fn spec_add_to_scope(
    scopes: ScopeView,
    name: Seq<char>,
    element: ScopeElementView,
) -> ScopeView
    recommends
        scopes.len() >= 1,
{
    scopes.update(scopes.len() - 1, spec_insert(scopes.last(), name, element))
}

/// What lowering an expression does: the instructions it emits and the
/// scope stack afterwards. A string literal pushes itself; a call lowers
/// its arguments left to right, binds an unknown callee to a placeholder,
/// and then calls the name.
pub open spec fn spec_handle_expression(scopes: ScopeView, e: ExprView) -> (Result<
    Seq<InstructionView>,
    CompileErrorView,
>, ScopeView)
    decreases e,
{
    match e {
        ExprView::StringLiteral(s) => (Ok(seq![InstructionView::PushString(s)]), scopes),
        ExprView::FunctionCall { name, arguments } => {
            let args = spec_handle_arguments(scopes, arguments);
            match args.0 {
                Err(e2) => (Err(e2), args.1),
                Ok(insns) => match spec_scope_lookup(args.1, name) {
                    Some((_, ScopeElementView::Variable)) => (
                        Err(CompileErrorView::CalledVariable(name)),
                        args.1,
                    ),
                    Some(_) => (Ok(insns.push(InstructionView::Call(name))), args.1),
                    None => (
                        Ok(insns.push(InstructionView::Call(name))),
                        spec_add_to_scope(args.1, name, ScopeElementView::PlaceholderFunction),
                    ),
                },
            }
        },
    }
}

/// Lowering a call's arguments left to right, threading the scope stack.
pub open spec fn spec_handle_arguments(scopes: ScopeView, args: Seq<ExprView>) -> (Result<
    Seq<InstructionView>,
    CompileErrorView,
>, ScopeView)
    decreases args,
{
    if args.len() == 0 {
        (Ok(Seq::empty()), scopes)
    } else {
        let first = spec_handle_expression(scopes, args[0]);
        match first.0 {
            Err(e) => (Err(e), first.1),
            Ok(insns0) => {
                let rest = spec_handle_arguments(first.1, args.drop_first());
                match rest.0 {
                    Err(e) => (Err(e), rest.1),
                    Ok(insns1) => (Ok(insns0 + insns1), rest.1),
                }
            },
        }
    }
}

/// What lowering a statement does: it lowers its expression.
pub open spec fn spec_handle_statement(scopes: ScopeView, st: StatementView) -> (Result<
    Seq<InstructionView>,
    CompileErrorView,
>, ScopeView) {
    match st {
        StatementView::Expr(e) => spec_handle_expression(scopes, e),
    }
}

/// Lowering a function body: its statements in order, concatenated.
pub open spec fn spec_handle_body(scopes: ScopeView, stmts: Seq<StatementView>) -> (Result<
    Seq<InstructionView>,
    CompileErrorView,
>, ScopeView)
    decreases stmts.len(),
{
    if stmts.len() == 0 {
        (Ok(Seq::empty()), scopes)
    } else {
        let first = spec_handle_statement(scopes, stmts[0]);
        match first.0 {
            Err(e) => (Err(e), first.1),
            Ok(insns0) => {
                let rest = spec_handle_body(first.1, stmts.drop_first());
                match rest.0 {
                    Err(e) => (Err(e), rest.1),
                    Ok(insns1) => (Ok(insns0 + insns1), rest.1),
                }
            },
        }
    }
}

/// What one definition does to the scope stack: redefinitions of functions,
/// built-ins and variables are rejected; otherwise the lowered body replaces
/// the name's entry (a placeholder, or nothing) in the top namespace.
pub open spec fn spec_handle_node(scopes: ScopeView, node: NodeView) -> (Result<
    (),
    CompileErrorView,
>, ScopeView) {
    match node {
        NodeView::FunctionDefinition { name, contents, impure: _ } => {
            match spec_scope_lookup(scopes, name) {
                Some((_, ScopeElementView::Function(_))) => (
                    Err(CompileErrorView::FunctionRedefined(name)),
                    scopes,
                ),
                Some((_, ScopeElementView::BuiltInFunction)) => (
                    Err(CompileErrorView::BuiltInRedefined(name)),
                    scopes,
                ),
                Some((_, ScopeElementView::Variable)) => (
                    Err(CompileErrorView::VariableRedefined(name)),
                    scopes,
                ),
                _ => {
                    let body = spec_handle_body(scopes, contents);
                    match body.0 {
                        Err(e) => (Err(e), body.1),
                        Ok(insns) => (
                            Ok(()),
                            spec_add_to_scope(body.1, name, ScopeElementView::Function(insns)),
                        ),
                    }
                },
            }
        },
    }
}

/// Processing the definitions in source order, stopping at the first fault.
pub open spec fn spec_build_nodes(scopes: ScopeView, nodes: Seq<NodeView>) -> (Result<
    (),
    CompileErrorView,
>, ScopeView)
    decreases nodes.len(),
{
    if nodes.len() == 0 {
        (Ok(()), scopes)
    } else {
        let first = spec_handle_node(scopes, nodes[0]);
        match first.0 {
            Err(e) => (Err(e), first.1),
            Ok(_) => spec_build_nodes(first.1, nodes.drop_first()),
        }
    }
}

/// The scope stack before any definition is processed: one namespace
/// holding the built-ins.
pub open spec fn spec_initial_scope() -> ScopeView {
    seq![seq![("print"@, ScopeElementView::BuiltInFunction)]]
}

/// The names still bound to placeholders, in namespace order: the names
/// that were called but never defined.
pub open spec fn spec_placeholder_names(ns: NamespaceView) -> Seq<Seq<char>>
    decreases ns.len(),
{
    if ns.len() == 0 {
        Seq::empty()
    } else {
        let rest = spec_placeholder_names(ns.drop_first());
        if ns[0].1 is PlaceholderFunction {
            seq![ns[0].0] + rest
        } else {
            rest
        }
    }
}

/// What building the whole program yields: the finished scope stack, or
/// the first fault, or — after a clean pass — the batch of names that were
/// called but never defined.
pub open spec fn spec_from_program(nodes: Seq<NodeView>) -> Result<ScopeView, CompileErrorView> {
    let built = spec_build_nodes(spec_initial_scope(), nodes);
    match built.0 {
        Err(e) => Err(e),
        Ok(_) => {
            let names = spec_placeholder_names(built.1.last());
            if names.len() > 0 {
                Err(CompileErrorView::UndefinedFunctions(names))
            } else {
                Ok(built.1)
            }
        },
    }
}

/// The mathematical value of a lowering step's outcome.
pub open spec fn spec_insns_result(r: Result<Vec<Instruction>, CompileError>) -> Result<
    Seq<InstructionView>,
    CompileErrorView,
> {
    match r {
        Ok(v) => Ok(v.deep_view()),
        Err(e) => Err(e.deep_view()),
    }
}

/// The mathematical value of a definition step's outcome.
pub open spec fn spec_unit_result(r: Result<(), CompileError>) -> Result<(), CompileErrorView> {
    match r {
        Ok(_) => Ok(()),
        Err(e) => Err(e.deep_view()),
    }
}

/// The mathematical value of the whole build's outcome.
pub open spec fn spec_ir_result(r: Result<IR, CompileError>) -> Result<
    ScopeView,
    CompileErrorView,
> {
    match r {
        Ok(ir) => Ok(ir@),
        Err(e) => Err(e.deep_view()),
    }
}

/// Argument lowering restarted mid-way: the instructions emitted so far,
/// the scope stack reached, and the arguments still to lower.
pub open spec fn spec_args_resume(
    acc: Seq<InstructionView>,
    scopes: ScopeView,
    rest: Seq<ExprView>,
) -> (Result<Seq<InstructionView>, CompileErrorView>, ScopeView) {
    let r = spec_handle_arguments(scopes, rest);
    match r.0 {
        Err(e) => (Err(e), r.1),
        Ok(insns) => (Ok(acc + insns), r.1),
    }
}

/// Body lowering restarted mid-way, like [`spec_args_resume`].
pub open spec fn spec_body_resume(
    acc: Seq<InstructionView>,
    scopes: ScopeView,
    rest: Seq<StatementView>,
) -> (Result<Seq<InstructionView>, CompileErrorView>, ScopeView) {
    let r = spec_handle_body(scopes, rest);
    match r.0 {
        Err(e) => (Err(e), r.1),
        Ok(insns) => (Ok(acc + insns), r.1),
    }
}

/// Starting a resumption with nothing emitted changes nothing.
pub proof fn lemma_args_resume_empty(scopes: ScopeView, args: Seq<ExprView>)
    ensures
        spec_args_resume(Seq::empty(), scopes, args) == spec_handle_arguments(scopes, args),
{
    let r = spec_handle_arguments(scopes, args);
    if r.0 is Ok {
        assert(Seq::<InstructionView>::empty() + r.0->Ok_0 =~= r.0->Ok_0);
    }
}

/// Starting a body resumption with nothing emitted changes nothing.
pub proof fn lemma_body_resume_empty(scopes: ScopeView, stmts: Seq<StatementView>)
    ensures
        spec_body_resume(Seq::empty(), scopes, stmts) == spec_handle_body(scopes, stmts),
{
    let r = spec_handle_body(scopes, stmts);
    if r.0 is Ok {
        assert(Seq::<InstructionView>::empty() + r.0->Ok_0 =~= r.0->Ok_0);
    }
}

/// Lowering one argument successfully advances the resumption point.
pub proof fn lemma_args_resume_step(
    acc: Seq<InstructionView>,
    scopes: ScopeView,
    args: Seq<ExprView>,
    after: ScopeView,
    insns: Seq<InstructionView>,
)
    requires
        args.len() > 0,
        spec_handle_expression(scopes, args[0]) == (
            Ok::<Seq<InstructionView>, CompileErrorView>(insns),
            after,
        ),
    ensures
        spec_args_resume(acc, scopes, args) == spec_args_resume(
            acc + insns,
            after,
            args.drop_first(),
        ),
{
    let rest = spec_handle_arguments(after, args.drop_first());
    if rest.0 is Ok {
        assert(acc + (insns + rest.0->Ok_0) =~= (acc + insns) + rest.0->Ok_0);
    }
}

/// A fault while lowering one argument decides the whole resumption.
pub proof fn lemma_args_resume_err(
    acc: Seq<InstructionView>,
    scopes: ScopeView,
    args: Seq<ExprView>,
    after: ScopeView,
    err: CompileErrorView,
)
    requires
        args.len() > 0,
        spec_handle_expression(scopes, args[0]) == (
            Err::<Seq<InstructionView>, CompileErrorView>(err),
            after,
        ),
    ensures
        spec_args_resume(acc, scopes, args) == (
            Err::<Seq<InstructionView>, CompileErrorView>(err),
            after,
        ),
{
}

/// Lowering one statement successfully advances the body resumption point.
pub proof fn lemma_body_resume_step(
    acc: Seq<InstructionView>,
    scopes: ScopeView,
    stmts: Seq<StatementView>,
    after: ScopeView,
    insns: Seq<InstructionView>,
)
    requires
        stmts.len() > 0,
        spec_handle_statement(scopes, stmts[0]) == (
            Ok::<Seq<InstructionView>, CompileErrorView>(insns),
            after,
        ),
    ensures
        spec_body_resume(acc, scopes, stmts) == spec_body_resume(
            acc + insns,
            after,
            stmts.drop_first(),
        ),
{
    let rest = spec_handle_body(after, stmts.drop_first());
    if rest.0 is Ok {
        assert(acc + (insns + rest.0->Ok_0) =~= (acc + insns) + rest.0->Ok_0);
    }
}

/// A fault while lowering one statement decides the whole body resumption.
pub proof fn lemma_body_resume_err(
    acc: Seq<InstructionView>,
    scopes: ScopeView,
    stmts: Seq<StatementView>,
    after: ScopeView,
    err: CompileErrorView,
)
    requires
        stmts.len() > 0,
        spec_handle_statement(scopes, stmts[0]) == (
            Err::<Seq<InstructionView>, CompileErrorView>(err),
            after,
        ),
    ensures
        spec_body_resume(acc, scopes, stmts) == (
            Err::<Seq<InstructionView>, CompileErrorView>(err),
            after,
        ),
{
}

/// When the first levels of the stack miss the name, the lookup is decided
/// by the outer levels, with positions shifted.
pub proof fn lemma_scope_lookup_skip(scopes: ScopeView, name: Seq<char>, count: int)
    requires
        0 <= count <= scopes.len(),
        forall|j: int| 0 <= j < count ==> spec_lookup(scopes[j], name) is None,
    ensures
        spec_scope_lookup(scopes, name) == match spec_scope_lookup(scopes.skip(count), name) {
            None => None::<(int, ScopeElementView)>,
            Some(r) => Some((r.0 + count, r.1)),
        },
    decreases count,
{
    if count > 0 {
        lemma_scope_lookup_skip(scopes.drop_first(), name, count - 1);
        assert(scopes.drop_first().skip(count - 1) =~= scopes.skip(count));
    } else {
        assert(scopes.skip(0) =~= scopes);
    }
}

/// True of namespace entries the builder can create: functions and
/// placeholders under any name, built-ins only under the seeded `print`,
/// and never the reserved variable tag.
pub open spec fn spec_ns_entry_ok(entry: (Seq<char>, ScopeElementView)) -> bool {
    match entry.1 {
        ScopeElementView::Variable => false,
        ScopeElementView::BuiltInFunction => entry.0 == "print"@,
        _ => true,
    }
}

/// True when every entry of the namespace is one the builder can create.
pub open spec fn spec_ns_ok(ns: NamespaceView) -> bool {
    forall|i: int| 0 <= i < ns.len() ==> #[trigger] spec_ns_entry_ok(ns[i])
}

/// The shape the builder keeps the scope stack in: exactly one namespace,
/// with unique keys and only entries the builder can create.
pub open spec fn spec_scopes_ok(scopes: ScopeView) -> bool {
    scopes.len() == 1 && spec_ns_ok(scopes[0]) && crate::table::spec_unique_keys(scopes[0])
}

/// Inserting an acceptable entry keeps every entry acceptable.
pub proof fn lemma_insert_ns_ok(ns: NamespaceView, name: Seq<char>, element: ScopeElementView)
    requires
        spec_ns_ok(ns),
        spec_ns_entry_ok((name, element)),
    ensures
        spec_ns_ok(spec_insert(ns, name, element)),
    decreases ns.len(),
{
    let inserted = spec_insert(ns, name, element);
    if ns.len() == 0 {
        assert(inserted[0] == (name, element));
    } else if ns[0].0 == name {
        assert forall|i: int| 0 <= i < inserted.len() implies spec_ns_entry_ok(inserted[i]) by {
            if i == 0 {
                assert(inserted[0] == (name, element));
            } else {
                assert(inserted[i] == ns[i]);
                assert(spec_ns_entry_ok(ns[i]));
            }
        }
    } else {
        assert(spec_ns_ok(ns.drop_first())) by {
            assert forall|i: int| 0 <= i < ns.drop_first().len() implies spec_ns_entry_ok(
                ns.drop_first()[i],
            ) by {
                assert(ns.drop_first()[i] == ns[i + 1]);
                assert(spec_ns_entry_ok(ns[i + 1]));
            }
        }
        lemma_insert_ns_ok(ns.drop_first(), name, element);
        assert forall|i: int| 0 <= i < inserted.len() implies spec_ns_entry_ok(inserted[i]) by {
            if i == 0 {
                assert(inserted[0] == ns[0]);
                assert(spec_ns_entry_ok(ns[0]));
            } else {
                assert(inserted[i] == spec_insert(ns.drop_first(), name, element)[i - 1]);
            }
        }
    }
}

/// Binding an acceptable entry keeps the scope stack in shape.
pub proof fn lemma_add_to_scope_ok(scopes: ScopeView, name: Seq<char>, element: ScopeElementView)
    requires
        spec_scopes_ok(scopes),
        spec_ns_entry_ok((name, element)),
    ensures
        spec_scopes_ok(spec_add_to_scope(scopes, name, element)),
{
    lemma_insert_ns_ok(scopes[0], name, element);
    crate::table::lemma_insert_unique(scopes[0], name, element);
    assert(spec_add_to_scope(scopes, name, element)[0] == spec_insert(scopes[0], name, element));
}

/// Lowering an expression keeps the scope stack in shape.
pub proof fn lemma_handle_expression_ok(scopes: ScopeView, e: ExprView)
    requires
        spec_scopes_ok(scopes),
    ensures
        spec_scopes_ok(spec_handle_expression(scopes, e).1),
    decreases e,
{
    match e {
        ExprView::StringLiteral(_) => {},
        ExprView::FunctionCall { name, arguments } => {
            lemma_handle_arguments_ok(scopes, arguments);
            let args = spec_handle_arguments(scopes, arguments);
            match args.0 {
                Err(_) => {},
                Ok(_) => {
                    match spec_scope_lookup(args.1, name) {
                        Some(_) => {},
                        None => {
                            lemma_add_to_scope_ok(
                                args.1,
                                name,
                                ScopeElementView::PlaceholderFunction,
                            );
                        },
                    }
                },
            }
        },
    }
}

/// Lowering an argument list keeps the scope stack in shape.
pub proof fn lemma_handle_arguments_ok(scopes: ScopeView, args: Seq<ExprView>)
    requires
        spec_scopes_ok(scopes),
    ensures
        spec_scopes_ok(spec_handle_arguments(scopes, args).1),
    decreases args,
{
    if args.len() > 0 {
        lemma_handle_expression_ok(scopes, args[0]);
        let first = spec_handle_expression(scopes, args[0]);
        match first.0 {
            Err(_) => {},
            Ok(_) => {
                lemma_handle_arguments_ok(first.1, args.drop_first());
            },
        }
    }
}

/// Lowering a body keeps the scope stack in shape.
pub proof fn lemma_handle_body_ok(scopes: ScopeView, stmts: Seq<StatementView>)
    requires
        spec_scopes_ok(scopes),
    ensures
        spec_scopes_ok(spec_handle_body(scopes, stmts).1),
    decreases stmts.len(),
{
    if stmts.len() > 0 {
        match stmts[0] {
            StatementView::Expr(e) => {
                lemma_handle_expression_ok(scopes, e);
            },
        }
        let first = spec_handle_statement(scopes, stmts[0]);
        match first.0 {
            Err(_) => {},
            Ok(_) => {
                lemma_handle_body_ok(first.1, stmts.drop_first());
            },
        }
    }
}

/// Processing a definition keeps the scope stack in shape.
pub proof fn lemma_handle_node_ok(scopes: ScopeView, node: NodeView)
    requires
        spec_scopes_ok(scopes),
    ensures
        spec_scopes_ok(spec_handle_node(scopes, node).1),
{
    match node {
        NodeView::FunctionDefinition { name, contents, impure: _ } => {
            match spec_scope_lookup(scopes, name) {
                Some((_, ScopeElementView::Function(_))) => {},
                Some((_, ScopeElementView::BuiltInFunction)) => {},
                Some((_, ScopeElementView::Variable)) => {},
                _ => {
                    lemma_handle_body_ok(scopes, contents);
                    let body = spec_handle_body(scopes, contents);
                    match body.0 {
                        Err(_) => {},
                        Ok(insns) => {
                            lemma_add_to_scope_ok(
                                body.1,
                                name,
                                ScopeElementView::Function(insns),
                            );
                        },
                    }
                },
            }
        },
    }
}

/// Processing the whole program keeps the scope stack in shape.
pub proof fn lemma_build_nodes_ok(scopes: ScopeView, nodes: Seq<NodeView>)
    requires
        spec_scopes_ok(scopes),
    ensures
        spec_scopes_ok(spec_build_nodes(scopes, nodes).1),
    decreases nodes.len(),
{
    if nodes.len() > 0 {
        lemma_handle_node_ok(scopes, nodes[0]);
        let first = spec_handle_node(scopes, nodes[0]);
        match first.0 {
            Err(_) => {},
            Ok(_) => {
                lemma_build_nodes_ok(first.1, nodes.drop_first());
            },
        }
    }
}

/// No name is left on the placeholder list exactly when no entry is a
/// placeholder.
pub proof fn lemma_placeholder_names_empty(ns: NamespaceView)
    ensures
        spec_placeholder_names(ns).len() == 0 <==> forall|i: int|
            0 <= i < ns.len() ==> !(#[trigger] ns[i].1 is PlaceholderFunction),
    decreases ns.len(),
{
    if ns.len() > 0 {
        lemma_placeholder_names_empty(ns.drop_first());
        assert forall|i: int|
            0 <= i < ns.drop_first().len() implies ns.drop_first()[i] == ns[i + 1] by {}
        if spec_placeholder_names(ns).len() == 0 {
            assert(!(ns[0].1 is PlaceholderFunction));
            assert forall|i: int| 0 <= i < ns.len() implies !(#[trigger] ns[i].1
                is PlaceholderFunction) by {
                if i > 0 {
                    assert(ns.drop_first()[i - 1] == ns[i]);
                }
            }
        }
    }
}

/// A program the builder accepts yields one namespace in shape, with no
/// placeholder left.
pub proof fn lemma_from_program_ok(nodes: Seq<NodeView>)
    ensures
        spec_from_program(nodes) matches Ok(scopes) ==> spec_scopes_ok(scopes) && forall|i: int|
            0 <= i < scopes[0].len() ==> !(#[trigger] scopes[0][i].1 is PlaceholderFunction),
{
    assert(spec_scopes_ok(spec_initial_scope())) by {
        let ns = spec_initial_scope()[0];
        assert(ns[0] == ("print"@, ScopeElementView::BuiltInFunction));
        assert(spec_ns_entry_ok(ns[0]));
    }
    lemma_build_nodes_ok(spec_initial_scope(), nodes);
    let built = spec_build_nodes(spec_initial_scope(), nodes);
    if built.0 is Ok {
        assert(built.1.last() == built.1[0]);
        lemma_placeholder_names_empty(built.1[0]);
    }
}

/// The intermediate representation of a program being compiled: its scope
/// stack, which holds at least one namespace throughout construction and
/// exactly one at its end.
#[derive(Debug)]
pub struct IR {
    pub scope: Vec<Namespace>,
}

impl View for IR {
    type V = ScopeView;

    open spec fn view(&self) -> ScopeView {
        self.scope.deep_view()
    }
}

impl IR {
    /// The element a name resolves to, walking the stack from the innermost
    /// namespace outwards, together with the namespace's position.
    fn get_from_scope(&self, name: &String) -> (r: Option<(usize, ScopeElement)>)
        ensures
            r matches Some(found) ==> spec_scope_lookup(self@, name@) == Some(
                (found.0 as int, found.1.deep_view()),
            ),
            r is None ==> spec_scope_lookup(self@, name@) is None,
    {
        let mut i: usize = 0;
        while i < self.scope.len()
            invariant
                i <= self.scope@.len(),
                forall|j: int| 0 <= j < i ==> spec_lookup(self@[j], name@) is None,
            decreases self.scope@.len() - i,
        {
            match self.scope[i].get(name) {
                Some(element) => {
                    let found = element.clone();
                    proof {
                        lemma_scope_lookup_skip(self@, name@, i as int);
                        assert(self@.skip(i as int)[0] == self@[i as int]);
                    }
                    return Some((i, found));
                },
                None => {},
            }
            i += 1;
        }
        proof {
            lemma_scope_lookup_skip(self@, name@, i as int);
            assert(self@.skip(i as int) =~= Seq::<NamespaceView>::empty());
        }
        None
    }

    /// Binds the name in the innermost namespace, the one pushed last.
    fn add_to_scope(&mut self, name: &str, element: ScopeElement)
        requires
            old(self)@.len() >= 1,
        ensures
            final(self)@ == spec_add_to_scope(old(self)@, name@, element.deep_view()),
    {
        let ghost pre = self@;
        let popped = self.scope.pop();
        match popped {
            Some(mut ns) => {
                ns.insert(name.to_owned(), element);
                self.scope.push(ns);
                proof {
                    assert(self.scope@.len() == old(self).scope@.len());
                    assert forall|j: int| 0 <= j < self@.len() implies self@[j]
                        == spec_add_to_scope(pre, name@, element.deep_view())[j] by {
                        if j < self@.len() - 1 {
                            assert(self.scope@[j] == old(self).scope@[j]);
                        }
                    }
                    assert(self@ =~= spec_add_to_scope(pre, name@, element.deep_view()));
                }
            },
            None => {
                proof {
                    assert(false);
                }
            },
        }
    }

    /// Lowers one expression, as [`spec_handle_expression`] says.
    fn handle_expression(&mut self, expression: &Expr) -> (r: Result<
        Vec<Instruction>,
        CompileError,
    >)
        requires
            old(self)@.len() >= 1,
        ensures
            final(self)@.len() == old(self)@.len(),
            final(self)@ == spec_handle_expression(old(self)@, expression.deep_view()).1,
            spec_insns_result(r) == spec_handle_expression(old(self)@, expression.deep_view()).0,
        decreases expression,
    {
        match expression {
            Expr::StringLiteral(s) => {
                let mut instructions = Vec::<Instruction>::new();
                instructions.push(Instruction::PushString(s.clone()));
                proof {
                    assert(instructions.deep_view() =~= seq![InstructionView::PushString(s@)]);
                }
                Ok(instructions)
            },
            Expr::FunctionCall { name, arguments } => {
                let ghost scopes0 = self@;
                let ghost argsv = deep_view_exprs(arguments@);
                let mut instructions = Vec::<Instruction>::new();
                proof {
                    lemma_deep_view_exprs(arguments@);
                    lemma_args_resume_empty(scopes0, argsv);
                    assert(argsv.skip(0) =~= argsv);
                    assert(instructions.deep_view() =~= Seq::<InstructionView>::empty());
                }
                let mut i: usize = 0;
                while i < arguments.len()
                    invariant
                        scopes0 == old(self)@,
                        *expression == (Expr::FunctionCall {
                            name: *name,
                            arguments: *arguments,
                        }),
                        self@.len() == scopes0.len(),
                        scopes0.len() >= 1,
                        i <= arguments.len(),
                        argsv == deep_view_exprs(arguments@),
                        argsv.len() == arguments@.len(),
                        forall|j: int| #![auto]
                            0 <= j < arguments@.len() ==> argsv[j] == arguments@[j].deep_view(),
                        spec_handle_arguments(scopes0, argsv) == spec_args_resume(
                            instructions.deep_view(),
                            self@,
                            argsv.skip(i as int),
                        ),
                    decreases arguments.len() - i,
                {
                    let ghost pre = self@;
                    let ghost acc = instructions.deep_view();
                    proof {
                        assert(argsv.skip(i as int)[0] == argsv[i as int]);
                        assert(argsv.skip(i as int).drop_first() =~= argsv.skip(i as int + 1));
                        assert(decreases_to!(*expression => *arguments));
                        assert(decreases_to!(*arguments => arguments@[i as int]));
                    }
                    let sub = self.handle_expression(&arguments[i]);
                    match sub {
                        Ok(mut sub_insns) => {
                            let ghost subdv = sub_insns.deep_view();
                            proof {
                                lemma_args_resume_step(acc, pre, argsv.skip(i as int), self@, subdv);
                            }
                            instructions.append(&mut sub_insns);
                            proof {
                                assert(instructions.deep_view() =~= acc + subdv);
                            }
                        },
                        Err(e) => {
                            proof {
                                lemma_args_resume_err(
                                    acc,
                                    pre,
                                    argsv.skip(i as int),
                                    self@,
                                    e.deep_view(),
                                );
                            }
                            return Err(e);
                        },
                    }
                    i += 1;
                }
                proof {
                    assert(argsv.skip(arguments@.len() as int) =~= Seq::<ExprView>::empty());
                    assert(instructions.deep_view() + Seq::<InstructionView>::empty()
                        =~= instructions.deep_view());
                }
                match self.get_from_scope(name) {
                    Some((_, ScopeElement::Variable)) => {
                        return Err(CompileError::CalledVariable(name.clone()));
                    },
                    Some(_) => {},
                    None => {
                        self.add_to_scope(name.as_str(), ScopeElement::PlaceholderFunction);
                    },
                }
                let ghost emitted = instructions.deep_view();
                instructions.push(Instruction::Call(name.clone()));
                proof {
                    assert(instructions.deep_view() =~= emitted.push(InstructionView::Call(name@)));
                }
                Ok(instructions)
            },
        }
    }

    /// Lowers one statement, as [`spec_handle_statement`] says.
    fn handle_statement(&mut self, statement: &Statement) -> (r: Result<
        Vec<Instruction>,
        CompileError,
    >)
        requires
            old(self)@.len() >= 1,
        ensures
            final(self)@.len() == old(self)@.len(),
            final(self)@ == spec_handle_statement(old(self)@, statement.deep_view()).1,
            spec_insns_result(r) == spec_handle_statement(old(self)@, statement.deep_view()).0,
    {
        match statement {
            Statement::Expr(e) => self.handle_expression(e),
        }
    }

    /// Lowers a whole function body, as [`spec_handle_body`] says.
    fn handle_function_body(&mut self, contents: &Vec<Statement>) -> (r: Result<
        Vec<Instruction>,
        CompileError,
    >)
        requires
            old(self)@.len() >= 1,
        ensures
            final(self)@.len() == old(self)@.len(),
            final(self)@ == spec_handle_body(old(self)@, contents.deep_view()).1,
            spec_insns_result(r) == spec_handle_body(old(self)@, contents.deep_view()).0,
    {
        let ghost scopes0 = self@;
        let ghost stmtsv = contents.deep_view();
        let mut instructions = Vec::<Instruction>::new();
        proof {
            lemma_body_resume_empty(scopes0, stmtsv);
            assert(stmtsv.skip(0) =~= stmtsv);
            assert(instructions.deep_view() =~= Seq::<InstructionView>::empty());
        }
        let mut i: usize = 0;
        while i < contents.len()
            invariant
                scopes0 == old(self)@,
                self@.len() == scopes0.len(),
                scopes0.len() >= 1,
                i <= contents.len(),
                stmtsv == contents.deep_view(),
                stmtsv.len() == contents@.len(),
                spec_handle_body(scopes0, stmtsv) == spec_body_resume(
                    instructions.deep_view(),
                    self@,
                    stmtsv.skip(i as int),
                ),
            decreases contents.len() - i,
        {
            let ghost pre = self@;
            let ghost acc = instructions.deep_view();
            proof {
                assert(stmtsv.skip(i as int)[0] == stmtsv[i as int]);
                assert(stmtsv.skip(i as int).drop_first() =~= stmtsv.skip(i as int + 1));
            }
            let sub = self.handle_statement(&contents[i]);
            match sub {
                Ok(mut sub_insns) => {
                    let ghost subdv = sub_insns.deep_view();
                    proof {
                        lemma_body_resume_step(acc, pre, stmtsv.skip(i as int), self@, subdv);
                    }
                    instructions.append(&mut sub_insns);
                    proof {
                        assert(instructions.deep_view() =~= acc + subdv);
                    }
                },
                Err(e) => {
                    proof {
                        lemma_body_resume_err(acc, pre, stmtsv.skip(i as int), self@, e.deep_view());
                    }
                    return Err(e);
                },
            }
            i += 1;
        }
        proof {
            assert(stmtsv.skip(contents@.len() as int) =~= Seq::<StatementView>::empty());
            assert(instructions.deep_view() + Seq::<InstructionView>::empty()
                =~= instructions.deep_view());
        }
        Ok(instructions)
    }

    /// Processes one definition, as [`spec_handle_node`] says.
    fn handle_node(&mut self, node: &Node) -> (r: Result<(), CompileError>)
        requires
            old(self)@.len() >= 1,
        ensures
            final(self)@.len() == old(self)@.len(),
            final(self)@ == spec_handle_node(old(self)@, node.deep_view()).1,
            spec_unit_result(r) == spec_handle_node(old(self)@, node.deep_view()).0,
    {
        match node {
            Node::FunctionDefinition { name, contents, impure: _ } => {
                match self.get_from_scope(name) {
                    Some((_, ScopeElement::Function(_))) => {
                        return Err(CompileError::FunctionRedefined(name.clone()));
                    },
                    Some((_, ScopeElement::BuiltInFunction)) => {
                        return Err(CompileError::BuiltInRedefined(name.clone()));
                    },
                    Some((_, ScopeElement::Variable)) => {
                        return Err(CompileError::VariableRedefined(name.clone()));
                    },
                    _ => {},
                }
                let body = match self.handle_function_body(contents) {
                    Ok(b) => b,
                    Err(e) => {
                        return Err(e);
                    },
                };
                self.add_to_scope(name.as_str(), ScopeElement::Function(body));
                Ok(())
            },
        }
    }

    /// Builds the intermediate representation of a whole program: seeds the
    /// built-ins, processes every definition in source order, and finally
    /// rejects the program if any called name was never defined, listing all
    /// such names at once. [`spec_from_program`] says the outcome exactly.
    pub fn from_program(program: Program) -> (r: Result<IR, CompileError>)
        ensures
            spec_ir_result(r) == spec_from_program(program.deep_view()),
    {
        let mut top_scope = Namespace::new();
        top_scope.insert("print".to_owned(), ScopeElement::BuiltInFunction);
        let mut scope = Vec::<Namespace>::new();
        scope.push(top_scope);
        let mut ir = IR { scope };
        let ghost progv = program.deep_view();
        proof {
            assert(spec_insert(
                Seq::<(Seq<char>, ScopeElementView)>::empty(),
                "print"@,
                ScopeElementView::BuiltInFunction,
            ) =~= seq![("print"@, ScopeElementView::BuiltInFunction)]);
            assert(ir@ =~= spec_initial_scope());
            assert(progv.skip(0) =~= progv);
        }
        let mut i: usize = 0;
        while i < program.len()
            invariant
                ir@.len() >= 1,
                i <= program.len(),
                progv == program.deep_view(),
                progv.len() == program@.len(),
                spec_build_nodes(spec_initial_scope(), progv) == spec_build_nodes(
                    ir@,
                    progv.skip(i as int),
                ),
            decreases program.len() - i,
        {
            let ghost pre = ir@;
            proof {
                assert(progv.skip(i as int)[0] == progv[i as int]);
                assert(progv.skip(i as int).drop_first() =~= progv.skip(i as int + 1));
            }
            match ir.handle_node(&program[i]) {
                Ok(_) => {},
                Err(e) => {
                    return Err(e);
                },
            }
            i += 1;
        }
        proof {
            assert(progv.skip(program@.len() as int) =~= Seq::<NodeView>::empty());
        }
        let last = ir.scope.len() - 1;
        let ghost top = ir@[last as int];
        let mut placeholder_names = Vec::<String>::new();
        let namespace_len = ir.scope[last].len();
        proof {
            assert(ir@.last() == top);
            assert(top.skip(0) =~= top);
            assert(placeholder_names.deep_view() =~= Seq::<Seq<char>>::empty());
            assert(Seq::<Seq<char>>::empty() + spec_placeholder_names(top)
                =~= spec_placeholder_names(top));
        }
        let mut k: usize = 0;
        while k < namespace_len
            invariant
                k <= top.len(),
                last < ir@.len(),
                namespace_len == top.len(),
                top == ir@[last as int],
                spec_placeholder_names(top) == placeholder_names.deep_view()
                    + spec_placeholder_names(top.skip(k as int)),
            decreases namespace_len - k,
        {
            proof {
                assert(top.skip(k as int)[0] == top[k as int]);
                assert(top.skip(k as int).drop_first() =~= top.skip(k as int + 1));
            }
            let ghost acc = placeholder_names.deep_view();
            let entry = ir.scope[last].entry_at(k);
            match entry.1 {
                ScopeElement::PlaceholderFunction => {
                    placeholder_names.push(entry.0.clone());
                    proof {
                        assert(placeholder_names.deep_view() =~= acc.push(top[k as int].0));
                        assert(acc.push(top[k as int].0) + spec_placeholder_names(
                            top.skip(k as int + 1),
                        ) =~= acc + (seq![top[k as int].0] + spec_placeholder_names(
                            top.skip(k as int + 1),
                        )));
                    }
                },
                _ => {},
            }
            k += 1;
        }
        proof {
            assert(top.skip(namespace_len as int) =~= Seq::<(Seq<char>, ScopeElementView)>::empty());
            assert(placeholder_names.deep_view() + Seq::<Seq<char>>::empty()
                =~= placeholder_names.deep_view());
        }
        if placeholder_names.len() > 0 {
            return Err(CompileError::UndefinedFunctions(placeholder_names));
        }
        Ok(ir)
    }
}

} // verus!
