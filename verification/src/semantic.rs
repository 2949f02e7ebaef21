//! Semantic analysis: scope resolution, the function table and type
//! checking.
//!
//! Analysis is a single depth-first walk that returns a structurally
//! identical tree, or the first semantic diagnostic. Its meaning is given by
//! [`spec_analyze`], which threads the scope-stack model through the walk;
//! expression typing is [`spec_expr_type`].
//!
//! The scope stack is a list of scopes, innermost last; a scope is a list of
//! name-to-type bindings in insertion order, the newest binding of a name
//! winning. Every block statement — `if` (each of its bodies), `while`,
//! `for`, `foreach` — analyzes its body under a fresh inner scope that is
//! closed on exit, so block-local bindings die with the block; `for` binds
//! its counter as a `number` in that scope. Class declarations, method
//! calls, member access and `new` are rejected here with a clear
//! diagnostic rather than carried into emission half-lowered.
//!
//! A diagnostic anywhere closes every scope the walk opened, so the stack
//! keeps its depth on all paths.
//!
//! The function table holds only the built-in `output(string) -> void`;
//! declared functions are not registered by this walk, parameters are not
//! bound into a scope, assignment to a `const` binding is not rejected,
//! and redeclaring a name in one scope shadows the older binding rather
//! than raising a diagnostic — four deliberate relaxations of a fuller
//! analysis.

use vstd::prelude::*;

use crate::ast::{AstModel, AstNode, BinaryOperator, KururiType, TypeModel};
use crate::ast::{lemma_models_index, spec_type_text};
use crate::error::{CompilerError, ErrorModel};
use crate::text;

verus! {

/// The model of one scope: bindings in insertion order, newest last.
pub type ScopeModel = Seq<(Seq<char>, TypeModel)>;

/// The model of the scope stack, innermost scope last.
pub type ScopeStackModel = Seq<Seq<(Seq<char>, TypeModel)>>;

// ---------------------------------------------------------------------------
// Lookup and the function table
// ---------------------------------------------------------------------------
/// The newest binding of `name` in one scope.
pub open spec fn lookup_scope(entries: ScopeModel, name: Seq<char>) -> Option<TypeModel>
    decreases entries,
{
    if entries.len() == 0 {
        None
    } else if entries.last().0 == name {
        Some(entries.last().1)
    } else {
        lookup_scope(entries.drop_last(), name)
    }
}

/// The binding of `name` in the innermost scope that has one.
pub open spec fn lookup_stack(scopes: ScopeStackModel, name: Seq<char>) -> Option<TypeModel>
    decreases scopes,
{
    if scopes.len() == 0 {
        None
    } else {
        match lookup_scope(scopes.last(), name) {
            Some(t) => Some(t),
            None => lookup_stack(scopes.drop_last(), name),
        }
    }
}

/// The function table: the built-in `output(string) -> void` and nothing
/// else.
pub open spec fn spec_fn_sig(name: Seq<char>) -> Option<(Seq<TypeModel>, TypeModel)> {
    if name == "output"@ {
        Some((seq![TypeModel::String], TypeModel::Void))
    } else {
        None
    }
}

/// Binding `name` in the innermost scope (a no-op on an empty stack).
pub open spec fn spec_declare(
    scopes: ScopeStackModel,
    name: Seq<char>,
    ty: TypeModel,
) -> ScopeStackModel {
    if scopes.len() == 0 {
        scopes
    } else {
        scopes.update(scopes.len() - 1, scopes.last().push((name, ty)))
    }
}

/// Closing the innermost scope (a no-op on an empty stack).
pub open spec fn spec_pop(scopes: ScopeStackModel) -> ScopeStackModel {
    if scopes.len() > 0 {
        scopes.drop_last()
    } else {
        scopes
    }
}

// ---------------------------------------------------------------------------
// Diagnostic messages
// ---------------------------------------------------------------------------
pub open spec fn undefined_variable_message(name: Seq<char>) -> Seq<char> {
    "Undefined variable: "@ + name
}

pub open spec fn undefined_function_message(name: Seq<char>) -> Seq<char> {
    "Undefined function: "@ + name
}

pub open spec fn type_mismatch_message(expected: TypeModel, found: TypeModel) -> Seq<char> {
    "Type mismatch: expected "@ + spec_type_text(expected) + ", found "@ + spec_type_text(found)
}

pub open spec fn arity_message(name: Seq<char>, expected: int, got: int) -> Seq<char> {
    "Function "@ + name + " expects "@ + text::spec_dec(expected) + " arguments, got "@
        + text::spec_dec(got)
}

pub open spec fn argument_mismatch_message(pos: int, expected: TypeModel, found: TypeModel) -> Seq<
    char,
> {
    "Argument "@ + text::spec_dec(pos) + " type mismatch: expected "@ + spec_type_text(expected)
        + ", found "@ + spec_type_text(found)
}

// ---------------------------------------------------------------------------
// Expression typing
// ---------------------------------------------------------------------------
/// The type of a binary expression from its operand types: `+` is numeric
/// addition only between numbers and concatenation otherwise; `- * /` are
/// numeric; comparisons, equalities and logical operators yield `string`,
/// the lattice's stand-in for a boolean.
pub open spec fn spec_binary_type(op: BinaryOperator, lt: TypeModel, rt: TypeModel) -> TypeModel {
    match op {
        BinaryOperator::Add => if lt == TypeModel::Number && rt == TypeModel::Number {
            TypeModel::Number
        } else {
            TypeModel::String
        },
        BinaryOperator::Subtract => TypeModel::Number,
        BinaryOperator::Multiply => TypeModel::Number,
        BinaryOperator::Divide => TypeModel::Number,
        _ => TypeModel::String,
    }
}

/// The computed type of an expression under a scope stack, or the semantic
/// diagnostic. Everything the table below does not cover types as `string`.
pub open spec fn spec_expr_type(scopes: ScopeStackModel, e: AstModel) -> Result<
    TypeModel,
    Seq<char>,
>
    decreases e,
{
    match e {
        AstModel::StringLiteral(_) => Ok(TypeModel::String),
        AstModel::NumberLiteral(_) => Ok(TypeModel::Number),
        AstModel::BooleanLiteral(_) => Ok(TypeModel::String),
        AstModel::Identifier(n) => match lookup_stack(scopes, n) {
            Some(t) => Ok(t),
            None => Err(undefined_variable_message(n)),
        },
        AstModel::FunctionCall { name, args } => match spec_fn_sig(name) {
            Some(sig) => Ok(sig.1),
            None => Err(undefined_function_message(name)),
        },
        AstModel::ArrayLiteral(elements) => if elements.len() == 0 {
            Ok(TypeModel::Array(Box::new(TypeModel::String)))
        } else {
            match spec_expr_type(scopes, elements[0]) {
                Ok(t) => Ok(TypeModel::Array(Box::new(t))),
                Err(m) => Err(m),
            }
        },
        AstModel::BinaryExpression { left, operator, right } => match spec_expr_type(
            scopes,
            *left,
        ) {
            Ok(lt) => match spec_expr_type(scopes, *right) {
                Ok(rt) => Ok(spec_binary_type(operator, lt, rt)),
                Err(m) => Err(m),
            },
            Err(m) => Err(m),
        },
        _ => Ok(TypeModel::String),
    }
}

// ---------------------------------------------------------------------------
// The walk
// ---------------------------------------------------------------------------
/// One node of the walk: the analyzed node and the scope stack after it,
/// or the first semantic diagnostic.
pub open spec fn spec_analyze(scopes: ScopeStackModel, e: AstModel) -> Result<
    (AstModel, ScopeStackModel),
    Seq<char>,
>
    decreases e,
{
    match e {
        AstModel::Program(stmts) => match spec_analyze_list(scopes, stmts) {
            Ok(ls) => Ok((AstModel::Program(ls.0), ls.1)),
            Err(m) => Err(m),
        },
        AstModel::FunctionDeclaration { name, params, return_type, body, is_public } => match
        spec_analyze_list(scopes, body) {
            Ok(ls) => Ok(
                (
                    AstModel::FunctionDeclaration {
                        name,
                        params,
                        return_type,
                        body: ls.0,
                        is_public,
                    },
                    ls.1,
                ),
            ),
            Err(m) => Err(m),
        },
        AstModel::VariableDeclaration { is_const, name, var_type, value } => match spec_analyze(
            scopes,
            *value,
        ) {
            Ok(vs) => match spec_expr_type(vs.1, *value) {
                Ok(vt) => if vt == var_type {
                    Ok(
                        (
                            AstModel::VariableDeclaration {
                                is_const,
                                name,
                                var_type,
                                value: Box::new(vs.0),
                            },
                            spec_declare(vs.1, name, var_type),
                        ),
                    )
                } else {
                    Err(type_mismatch_message(var_type, vt))
                },
                Err(m) => Err(m),
            },
            Err(m) => Err(m),
        },
        AstModel::FunctionCall { name, args } => match spec_fn_sig(name) {
            Some(sig) => if args.len() != sig.0.len() {
                Err(arity_message(name, sig.0.len() as int, args.len() as int))
            } else {
                match spec_analyze_args(scopes, args, sig.0, 1) {
                    Ok(ar) => Ok((AstModel::FunctionCall { name, args: ar.0 }, ar.1)),
                    Err(m) => Err(m),
                }
            },
            None => Err(undefined_function_message(name)),
        },
        AstModel::Identifier(n) => if lookup_stack(scopes, n) is Some {
            Ok((e, scopes))
        } else {
            Err(undefined_variable_message(n))
        },
        AstModel::StringLiteral(_) => Ok((e, scopes)),
        AstModel::NumberLiteral(_) => Ok((e, scopes)),
        AstModel::BooleanLiteral(_) => Ok((e, scopes)),
        AstModel::ForStatement { counter_var, condition, body } => {
            let pushed = scopes.push(seq![(counter_var, TypeModel::Number)]);
            match spec_analyze(pushed, *condition) {
                Ok(cs) => match spec_analyze_list(cs.1, body) {
                    Ok(ls) => Ok(
                        (
                            AstModel::ForStatement {
                                counter_var,
                                condition: Box::new(cs.0),
                                body: ls.0,
                            },
                            spec_pop(ls.1),
                        ),
                    ),
                    Err(m) => Err(m),
                },
                Err(m) => Err(m),
            }
        },
        AstModel::IfStatement { condition, then_body, elseif_branches, else_body } => match
        spec_analyze(scopes, *condition) {
            Ok(cs) => match spec_analyze_list(cs.1.push(Seq::empty()), then_body) {
                Ok(ts) => match spec_analyze_branches(spec_pop(ts.1), elseif_branches) {
                    Ok(es) => match else_body {
                        Some(eb) => match spec_analyze_list(es.1.push(Seq::empty()), eb) {
                            Ok(bs) => Ok(
                                (
                                    AstModel::IfStatement {
                                        condition: Box::new(cs.0),
                                        then_body: ts.0,
                                        elseif_branches: es.0,
                                        else_body: Some(bs.0),
                                    },
                                    spec_pop(bs.1),
                                ),
                            ),
                            Err(m) => Err(m),
                        },
                        None => Ok(
                            (
                                AstModel::IfStatement {
                                    condition: Box::new(cs.0),
                                    then_body: ts.0,
                                    elseif_branches: es.0,
                                    else_body: None,
                                },
                                es.1,
                            ),
                        ),
                    },
                    Err(m) => Err(m),
                },
                Err(m) => Err(m),
            },
            Err(m) => Err(m),
        },
        AstModel::WhileStatement { condition, body } => match spec_analyze(scopes, *condition) {
            Ok(cs) => match spec_analyze_list(cs.1.push(Seq::empty()), body) {
                Ok(ls) => Ok(
                    (
                        AstModel::WhileStatement { condition: Box::new(cs.0), body: ls.0 },
                        spec_pop(ls.1),
                    ),
                ),
                Err(m) => Err(m),
            },
            Err(m) => Err(m),
        },
        AstModel::ForeachStatement { var_name, iterable, body } => match spec_analyze(
            scopes,
            *iterable,
        ) {
            Ok(is) => match spec_analyze_list(is.1.push(Seq::empty()), body) {
                Ok(ls) => Ok(
                    (
                        AstModel::ForeachStatement {
                            var_name,
                            iterable: Box::new(is.0),
                            body: ls.0,
                        },
                        spec_pop(ls.1),
                    ),
                ),
                Err(m) => Err(m),
            },
            Err(m) => Err(m),
        },
        AstModel::ClassDeclaration { .. } => Err("Class declarations are not supported"@),
        AstModel::MethodCall { .. } => Err("Method calls are not supported"@),
        AstModel::PropertyAccess { .. } => Err("Member access is not supported"@),
        AstModel::NewExpression { .. } => Err("new expressions are not supported"@),
        AstModel::Assignment { target, value } => match *target {
            AstModel::Identifier(n) => if lookup_stack(scopes, n) is Some {
                match spec_analyze(scopes, *value) {
                    Ok(vs) => Ok((AstModel::Assignment { target, value: Box::new(vs.0) }, vs.1)),
                    Err(m) => Err(m),
                }
            } else {
                Err(undefined_variable_message(n))
            },
            _ => Err("Assignment target must be an identifier"@),
        },
        AstModel::BinaryExpression { left, operator, right } => match spec_analyze(
            scopes,
            *left,
        ) {
            Ok(lsr) => match spec_analyze(lsr.1, *right) {
                Ok(rsr) => Ok(
                    (
                        AstModel::BinaryExpression {
                            left: Box::new(lsr.0),
                            operator,
                            right: Box::new(rsr.0),
                        },
                        rsr.1,
                    ),
                ),
                Err(m) => Err(m),
            },
            Err(m) => Err(m),
        },
        _ => Ok((e, scopes)),
    }
}

/// A statement list of the walk, threading the scope stack left to right.
pub open spec fn spec_analyze_list(scopes: ScopeStackModel, stmts: Seq<AstModel>) -> Result<
    (Seq<AstModel>, ScopeStackModel),
    Seq<char>,
>
    decreases stmts,
{
    if stmts.len() == 0 {
        Ok((Seq::empty(), scopes))
    } else {
        match spec_analyze(scopes, stmts[0]) {
            Ok(ns) => match spec_analyze_list(ns.1, stmts.drop_first()) {
                Ok(ls) => Ok((seq![ns.0] + ls.0, ls.1)),
                Err(m) => Err(m),
            },
            Err(m) => Err(m),
        }
    }
}

/// The `elseif` branches of an `if`: each condition is analyzed, then its
/// body under a fresh inner scope that is closed afterwards.
pub open spec fn spec_analyze_branches(
    scopes: ScopeStackModel,
    branches: Seq<(AstModel, Seq<AstModel>)>,
) -> Result<(Seq<(AstModel, Seq<AstModel>)>, ScopeStackModel), Seq<char>>
    decreases branches,
{
    if branches.len() == 0 {
        Ok((Seq::empty(), scopes))
    } else {
        match spec_analyze(scopes, branches[0].0) {
            Ok(cs) => match spec_analyze_list(cs.1.push(Seq::empty()), branches[0].1) {
                Ok(bs) => match spec_analyze_branches(spec_pop(bs.1), branches.drop_first()) {
                    Ok(rs) => Ok((seq![(cs.0, bs.0)] + rs.0, rs.1)),
                    Err(m) => Err(m),
                },
                Err(m) => Err(m),
            },
            Err(m) => Err(m),
        }
    }
}

/// The arguments of a call: each is analyzed, then its computed type must
/// equal the declared parameter type; `pos` is the 1-based position used in
/// the diagnostic.
pub open spec fn spec_analyze_args(
    scopes: ScopeStackModel,
    args: Seq<AstModel>,
    params: Seq<TypeModel>,
    pos: int,
) -> Result<(Seq<AstModel>, ScopeStackModel), Seq<char>>
    decreases args,
{
    if args.len() == 0 || params.len() == 0 {
        Ok((Seq::empty(), scopes))
    } else {
        match spec_analyze(scopes, args[0]) {
            Ok(ar) => match spec_expr_type(ar.1, args[0]) {
                Ok(at) => if at == params[0] {
                    match spec_analyze_args(ar.1, args.drop_first(), params.drop_first(), pos + 1) {
                        Ok(rest) => Ok((seq![ar.0] + rest.0, rest.1)),
                        Err(m) => Err(m),
                    }
                } else {
                    Err(argument_mismatch_message(pos, params[0], at))
                },
                Err(m) => Err(m),
            },
            Err(m) => Err(m),
        }
    }
}

// ---------------------------------------------------------------------------
// The executable analyzer
// ---------------------------------------------------------------------------
/// The semantic analyzer: the scope stack, the function table and the
/// return-type context (kept for a fuller walk; this one never sets it).
pub struct SemanticAnalyzer {
    scopes: Vec<Vec<(String, KururiType)>>,
    functions: Vec<(String, Vec<KururiType>, KururiType)>,
    current_function_return_type: Option<KururiType>,
}

impl SemanticAnalyzer {
    /// The model of the scope stack.
    pub closed spec fn scopes_model(&self) -> ScopeStackModel {
        self.scopes.deep_view()
    }

    /// The function table holds exactly the built-in `output`.
    pub closed spec fn wf(&self) -> bool {
        &&& self.functions@.len() == 1
        &&& self.functions@[0].0@ == "output"@
        &&& self.functions@[0].1.deep_view() == seq![TypeModel::String]
        &&& self.functions@[0].2.model() == TypeModel::Void
    }

    /// Creates an analyzer with one empty global scope and the built-in
    /// function table.
    pub fn new() -> (r: SemanticAnalyzer)
        ensures
            r.wf(),
            r.scopes_model() == seq![Seq::<(Seq<char>, TypeModel)>::empty()],
    {
        let mut scopes: Vec<Vec<(String, KururiType)>> = Vec::new();
        scopes.push(Vec::new());
        let mut output_params: Vec<KururiType> = Vec::new();
        output_params.push(KururiType::String);
        let mut functions: Vec<(String, Vec<KururiType>, KururiType)> = Vec::new();
        functions.push((String::from_str("output"), output_params, KururiType::Void));
        let r = SemanticAnalyzer { scopes, functions, current_function_return_type: None };
        proof {
            assert(r.functions@[0].1.deep_view() =~= seq![TypeModel::String]);
            assert(r.scopes_model() =~~= seq![Seq::<(Seq<char>, TypeModel)>::empty()]);
        }
        r
    }

    /// Looks `name` up in the function table, handing back owned copies of
    /// the parameter list and return type.
    fn lookup_function(&self, name: &str) -> (r: Option<(Vec<KururiType>, KururiType)>)
        requires
            self.wf(),
        ensures
            match spec_fn_sig(name@) {
                Some(sig) => (r matches Some(pr) && pr.0.deep_view() == sig.0 && pr.1.model()
                    == sig.1),
                None => r is None,
            },
    {
        // the table holds exactly the one built-in
        if text::str_eq(self.functions[0].0.as_str(), name) {
            let params = duplicate_types(&self.functions[0].1);
            let ret = self.functions[0].2.duplicate();
            Some((params, ret))
        } else {
            None
        }
    }

    /// Finds the innermost binding of `name`, handing back an owned copy of
    /// its type.
    #[verifier::loop_isolation(false)]
    fn lookup_var(&self, name: &str) -> (r: Option<KururiType>)
        ensures
            match lookup_stack(self.scopes_model(), name@) {
                Some(t) => (r matches Some(k) && k.model() == t),
                None => r is None,
            },
    {
        let ghost sm = self.scopes_model();
        proof {
            assert(sm.subrange(0, sm.len() as int) =~= sm);
        }
        let mut i: usize = self.scopes.len();
        while i > 0
            invariant
                i <= self.scopes@.len(),
                lookup_stack(sm, name@) == lookup_stack(sm.subrange(0, i as int), name@),
            decreases i,
        {
            i = i - 1;
            let ghost entries = sm[i as int];
            proof {
                assert(entries == self.scopes@[i as int].deep_view());
                assert(entries.subrange(0, entries.len() as int) =~= entries);
            }
            let mut j: usize = self.scopes[i].len();
            while j > 0
                invariant
                    i < self.scopes@.len(),
                    j <= entries.len(),
                    entries == sm[i as int],
                    entries.len() == self.scopes@[i as int]@.len(),
                    lookup_scope(entries, name@) == lookup_scope(
                        entries.subrange(0, j as int),
                        name@,
                    ),
                decreases j,
            {
                j = j - 1;
                proof {
                    assert(entries[j as int] == (
                        self.scopes@[i as int]@[j as int].0@,
                        self.scopes@[i as int]@[j as int].1.model(),
                    ));
                    assert(entries.subrange(0, j + 1).last() == entries[j as int]);
                    assert(entries.subrange(0, j + 1).drop_last() =~= entries.subrange(
                        0,
                        j as int,
                    ));
                }
                if text::str_eq(self.scopes[i][j].0.as_str(), name) {
                    return Some(self.scopes[i][j].1.duplicate());
                }
            }
            proof {
                assert(entries.subrange(0, 0) =~= Seq::<(Seq<char>, TypeModel)>::empty());
                assert(lookup_scope(entries, name@) is None);
                assert(sm.subrange(0, i + 1).last() == entries);
                assert(sm.subrange(0, i + 1).drop_last() =~= sm.subrange(0, i as int));
            }
        }
        proof {
            assert(sm.subrange(0, 0) =~= Seq::<Seq<(Seq<char>, TypeModel)>>::empty());
        }
        None
    }

    /// Reports whether `name` is bound in any enclosing scope.
    pub fn is_variable_defined(&self, name: &str) -> (r: bool)
        ensures
            r == (lookup_stack(self.scopes_model(), name@) is Some),
    {
        match self.lookup_var(name) {
            Some(_) => true,
            None => false,
        }
    }

    /// The type of `name` in the innermost binding, or the undefined
    /// variable diagnostic.
    pub fn get_variable_type(&self, name: &str) -> (r: Result<KururiType, CompilerError>)
        ensures
            match lookup_stack(self.scopes_model(), name@) {
                Some(t) => (r matches Ok(k) && k.model() == t),
                None => (r matches Err(e) && e.deep_view() == ErrorModel::Semantic(
                    undefined_variable_message(name@),
                )),
            },
    {
        match self.lookup_var(name) {
            Some(t) => Ok(t),
            None => {
                let mut msg: Vec<char> = Vec::new();
                text::push_str_chars(&mut msg, "Undefined variable: ");
                text::push_str_chars(&mut msg, name);
                Err(CompilerError::SemanticError(text::chars_to_string(&msg)))
            },
        }
    }

    /// Strict type compatibility: structural equality.
    pub fn types_compatible(&self, expected: &KururiType, actual: &KururiType) -> (r: bool)
        ensures
            r == (expected.model() == actual.model()),
    {
        expected.type_eq(actual)
    }

    /// Opens a fresh innermost scope.
    pub fn enter_scope(&mut self)
        ensures
            final(self).wf() == old(self).wf(),
            final(self).scopes_model() == old(self).scopes_model().push(
                Seq::<(Seq<char>, TypeModel)>::empty(),
            ),
    {
        self.scopes.push(Vec::new());
        proof {
            assert(self.scopes_model() =~~= old(self).scopes_model().push(
                Seq::<(Seq<char>, TypeModel)>::empty(),
            ));
        }
    }

    /// Closes the innermost scope (a no-op when none is open).
    pub fn exit_scope(&mut self)
        ensures
            final(self).wf() == old(self).wf(),
            old(self).scopes_model().len() > 0 ==> final(self).scopes_model() == old(self).scopes_model().drop_last(),
            old(self).scopes_model().len() == 0 ==> final(self).scopes_model() == old(self).scopes_model(),
    {
        let popped = self.scopes.pop();
        proof {
            if old(self).scopes_model().len() > 0 {
                assert(self.scopes_model() =~~= old(self).scopes_model().drop_last());
            } else {
                assert(self.scopes_model() =~~= old(self).scopes_model());
            }
        }
    }

    /// Binds `name` in the innermost scope (a no-op when none is open).
    pub fn declare_variable(&mut self, name: String, var_type: KururiType)
        ensures
            final(self).wf() == old(self).wf(),
            final(self).scopes_model() == spec_declare(
                old(self).scopes_model(),
                name@,
                var_type.model(),
            ),
    {
        let ghost ty_model = var_type.model();
        if self.scopes.len() > 0 {
            let mut scope = self.scopes.pop().unwrap();
            scope.push((name, var_type));
            self.scopes.push(scope);
            proof {
                assert(self.scopes_model() =~~= spec_declare(
                    old(self).scopes_model(),
                    name@,
                    ty_model,
                ));
            }
        } else {
            proof {
                assert(self.scopes_model() =~~= spec_declare(
                    old(self).scopes_model(),
                    name@,
                    ty_model,
                ));
            }
        }
    }

    /// The computed type of an expression, as [`spec_expr_type`] says.
    #[verifier::rlimit(60)]
    pub fn get_expression_type(&self, expr: &AstNode) -> (r: Result<KururiType, CompilerError>)
        requires
            self.wf(),
        ensures
            match spec_expr_type(self.scopes_model(), expr.model()) {
                Ok(t) => (r matches Ok(k) && k.model() == t),
                Err(m) => (r matches Err(e) && e.deep_view() == ErrorModel::Semantic(m)),
            },
        decreases expr,
    {
        match expr {
            AstNode::StringLiteral(_) => Ok(KururiType::String),
            AstNode::NumberLiteral(_) => Ok(KururiType::Number),
            AstNode::BooleanLiteral(_) => Ok(KururiType::String),
            AstNode::Identifier(name) => self.get_variable_type(name.as_str()),
            AstNode::FunctionCall { name, args } => match self.lookup_function(name.as_str()) {
                Some(sig) => Ok(sig.1),
                None => {
                    let mut msg: Vec<char> = Vec::new();
                    text::push_str_chars(&mut msg, "Undefined function: ");
                    text::push_str_chars(&mut msg, name.as_str());
                    Err(CompilerError::SemanticError(text::chars_to_string(&msg)))
                },
            },
            AstNode::ArrayLiteral(elements) => {
                proof {
                    lemma_models_index(elements@);
                }
                if elements.len() == 0 {
                    Ok(KururiType::Array(Box::new(KururiType::String)))
                } else {
                    proof {
                        assert(decreases_to!(elements => elements@[0]));
                    }
                    match self.get_expression_type(&elements[0]) {
                        Ok(t) => Ok(KururiType::Array(Box::new(t))),
                        Err(e) => Err(e),
                    }
                }
            },
            AstNode::BinaryExpression { left, operator, right } => {
                let left_type = match self.get_expression_type(left) {
                    Ok(t) => t,
                    Err(e) => {
                        return Err(e);
                    },
                };
                let right_type = match self.get_expression_type(right) {
                    Ok(t) => t,
                    Err(e) => {
                        return Err(e);
                    },
                };
                match operator {
                    BinaryOperator::Add => {
                        if matches!(left_type, KururiType::Number) && matches!(
                            right_type,
                            KururiType::Number,
                        ) {
                            Ok(KururiType::Number)
                        } else {
                            Ok(KururiType::String)
                        }
                    },
                    BinaryOperator::Subtract => Ok(KururiType::Number),
                    BinaryOperator::Multiply => Ok(KururiType::Number),
                    BinaryOperator::Divide => Ok(KururiType::Number),
                    _ => Ok(KururiType::String),
                }
            },
            _ => Ok(KururiType::String),
        }
    }

    /// Analyzes a statement list, threading the scope stack left to right.
    #[verifier::loop_isolation(false)]
    fn analyze_list(&mut self, stmts: &Vec<AstNode>) -> (r: Result<Vec<AstNode>, CompilerError>)
        requires
            old(self).wf(),
        ensures
            final(self).wf(),
            match spec_analyze_list(old(self).scopes_model(), AstNode::models(stmts@)) {
                Ok(ls) => (r matches Ok(l) && AstNode::models(l@) == ls.0 && final(self).scopes_model() == ls.1),
                Err(m) => (r matches Err(e) && e.deep_view() == ErrorModel::Semantic(m)),
            },
            r is Err ==> final(self).scopes_model().len() == old(self).scopes_model().len(),
        decreases stmts, 1int,
    {
        let ghost t = AstNode::models(stmts@);
        let ghost sc0 = self.scopes_model();
        proof {
            lemma_models_index(stmts@);
            assert(t.skip(0) =~= t);
        }
        let mut analyzed: Vec<AstNode> = Vec::new();
        proof {
            lemma_models_index(analyzed@);
            assert(AstNode::models(analyzed@) =~= Seq::<AstModel>::empty());
            match spec_analyze_list(sc0, t) {
                Ok(ls) => {
                    assert(Seq::<AstModel>::empty() + ls.0 =~= ls.0);
                },
                Err(_) => {},
            }
        }
        let n = stmts.len();
        let mut i: usize = 0;
        while i < n
            invariant
                self.wf(),
                i <= n,
                self.scopes_model().len() == sc0.len(),
                spec_list_join(AstNode::models(analyzed@), spec_analyze_list(
                    self.scopes_model(),
                    t.skip(i as int),
                )) == spec_analyze_list(sc0, t),
            decreases n - i,
        {
            let ghost acc = AstNode::models(analyzed@);
            proof {
                lemma_list_step(sc0, t, acc, self.scopes_model(), i as int);
                lemma_analyze_frame(self.scopes_model(), t[i as int]);
                assert(decreases_to!(stmts => stmts@[i as int]));
            }
            match self.analyze_ast(&stmts[i]) {
                Ok(node) => {
                    let ghost node_model = node.model();
                    let ghost old_list = analyzed@;
                    analyzed.push(node);
                    i = i + 1;
                    proof {
                        lemma_models_index(old_list);
                        lemma_models_index(analyzed@);
                        assert(AstNode::models(analyzed@) =~= acc.push(node_model));
                    }
                },
                Err(e) => {
                    return Err(e);
                },
            }
        }
        proof {
            assert(t.skip(n as int) =~= Seq::<AstModel>::empty());
            match spec_analyze_list(sc0, t) {
                Ok(ls) => {
                    assert(AstNode::models(analyzed@) + Seq::<AstModel>::empty() =~= AstNode::models(
                        analyzed@,
                    ));
                },
                Err(_) => {},
            }
        }
        Ok(analyzed)
    }

    /// Analyzes the arguments of a call against the declared parameter
    /// types, in order.
    #[verifier::loop_isolation(false)]
    #[verifier::rlimit(60)]
    fn analyze_args(&mut self, args: &Vec<AstNode>, param_types: &Vec<KururiType>) -> (r: Result<
        Vec<AstNode>,
        CompilerError,
    >)
        requires
            old(self).wf(),
        ensures
            final(self).wf(),
            match spec_analyze_args(
                old(self).scopes_model(),
                AstNode::models(args@),
                param_types.deep_view(),
                1,
            ) {
                Ok(ar) => (r matches Ok(l) && AstNode::models(l@) == ar.0 && final(self).scopes_model() == ar.1),
                Err(m) => (r matches Err(e) && e.deep_view() == ErrorModel::Semantic(m)),
            },
            r is Err ==> final(self).scopes_model().len() == old(self).scopes_model().len(),
        decreases args, 1int,
    {
        let ghost t = AstNode::models(args@);
        let ghost ps = param_types.deep_view();
        let ghost sc0 = self.scopes_model();
        proof {
            lemma_models_index(args@);
            assert(t.skip(0) =~= t);
            assert(ps.skip(0) =~= ps);
        }
        let mut analyzed: Vec<AstNode> = Vec::new();
        proof {
            lemma_models_index(analyzed@);
            assert(AstNode::models(analyzed@) =~= Seq::<AstModel>::empty());
            match spec_analyze_args(sc0, t, ps, 1) {
                Ok(ar) => {
                    assert(Seq::<AstModel>::empty() + ar.0 =~= ar.0);
                },
                Err(_) => {},
            }
        }
        let n = args.len();
        let mut i: usize = 0;
        while i < n && i < param_types.len()
            invariant
                self.wf(),
                i <= n,
                i <= param_types@.len(),
                self.scopes_model().len() == sc0.len(),
                spec_args_join(AstNode::models(analyzed@), spec_analyze_args(
                    self.scopes_model(),
                    t.skip(i as int),
                    ps.skip(i as int),
                    i + 1,
                )) == spec_analyze_args(sc0, t, ps, 1),
            decreases n - i,
        {
            let ghost acc = AstNode::models(analyzed@);
            proof {
                lemma_args_step(sc0, t, ps, acc, self.scopes_model(), i as int);
                lemma_analyze_frame(self.scopes_model(), t[i as int]);
                assert(decreases_to!(args => args@[i as int]));
            }
            let analyzed_arg = match self.analyze_ast(&args[i]) {
                Ok(node) => node,
                Err(e) => {
                    return Err(e);
                },
            };
            let arg_type = match self.get_expression_type(&args[i]) {
                Ok(t) => t,
                Err(e) => {
                    return Err(e);
                },
            };
            let expected = &param_types[i];
            if !self.types_compatible(expected, &arg_type) {
                let mut msg: Vec<char> = Vec::new();
                text::push_str_chars(&mut msg, "Argument ");
                text::push_dec(&mut msg, i + 1);
                text::push_str_chars(&mut msg, " type mismatch: expected ");
                expected.push_type_text(&mut msg);
                text::push_str_chars(&mut msg, ", found ");
                arg_type.push_type_text(&mut msg);
                return Err(CompilerError::SemanticError(text::chars_to_string(&msg)));
            }
            let ghost node_model = analyzed_arg.model();
            let ghost old_list = analyzed@;
            analyzed.push(analyzed_arg);
            i = i + 1;
            proof {
                lemma_models_index(old_list);
                lemma_models_index(analyzed@);
                assert(AstNode::models(analyzed@) =~= acc.push(node_model));
            }
        }
        proof {
            if i == n {
                assert(t.skip(n as int) =~= Seq::<AstModel>::empty());
            } else {
                assert(ps.skip(i as int).len() == 0);
                assert(ps.skip(i as int) =~= Seq::<TypeModel>::empty());
            }
            match spec_analyze_args(sc0, t, ps, 1) {
                Ok(ar) => {
                    assert(AstNode::models(analyzed@) + Seq::<AstModel>::empty() =~= AstNode::models(
                        analyzed@,
                    ));
                },
                Err(_) => {},
            }
        }
        Ok(analyzed)
    }

    /// Analyzes one node, as [`spec_analyze`] says: the analyzed tree and
    /// the updated scope stack, or the first semantic diagnostic.
    #[verifier::rlimit(100)]
    pub fn analyze_ast(&mut self, ast: &AstNode) -> (r: Result<AstNode, CompilerError>)
        requires
            old(self).wf(),
        ensures
            final(self).wf(),
            match spec_analyze(old(self).scopes_model(), ast.model()) {
                Ok(ns) => (r matches Ok(n) && n.model() == ns.0 && final(self).scopes_model()
                    == ns.1),
                Err(m) => (r matches Err(e) && e.deep_view() == ErrorModel::Semantic(m)),
            },
            r is Err ==> final(self).scopes_model().len() == old(self).scopes_model().len(),
        decreases ast, 1int,
    {
        match ast {
            AstNode::Program(statements) => {
                proof {
                    assert(decreases_to!(ast => *statements));
                }
                match self.analyze_list(statements) {
                    Ok(l) => Ok(AstNode::Program(l)),
                    Err(e) => Err(e),
                }
            },
            AstNode::FunctionDeclaration { name, params, return_type, body, is_public } => {
                proof {
                    assert(decreases_to!(ast => *body));
                }
                match self.analyze_list(body) {
                    Ok(l) => Ok(
                        AstNode::FunctionDeclaration {
                            name: name.clone(),
                            params: crate::ast::duplicate_params(params),
                            return_type: return_type.duplicate(),
                            body: l,
                            is_public: *is_public,
                        },
                    ),
                    Err(e) => Err(e),
                }
            },
            AstNode::VariableDeclaration { is_const, name, var_type, value } => {
                proof {
                    assert(decreases_to!(ast => **value));
                }
                let analyzed_value = match self.analyze_ast(value) {
                    Ok(n) => n,
                    Err(e) => {
                        return Err(e);
                    },
                };
                proof {
                    lemma_analyze_frame(old(self).scopes_model(), value.model());
                }
                let value_type = match self.get_expression_type(value) {
                    Ok(t) => t,
                    Err(e) => {
                        return Err(e);
                    },
                };
                if !self.types_compatible(var_type, &value_type) {
                    let mut msg: Vec<char> = Vec::new();
                    text::push_str_chars(&mut msg, "Type mismatch: expected ");
                    var_type.push_type_text(&mut msg);
                    text::push_str_chars(&mut msg, ", found ");
                    value_type.push_type_text(&mut msg);
                    return Err(CompilerError::SemanticError(text::chars_to_string(&msg)));
                }
                self.declare_variable(name.clone(), var_type.duplicate());
                Ok(
                    AstNode::VariableDeclaration {
                        is_const: *is_const,
                        name: name.clone(),
                        var_type: var_type.duplicate(),
                        value: Box::new(analyzed_value),
                    },
                )
            },
            AstNode::FunctionCall { name, args } => {
                proof {
                    lemma_models_index(args@);
                }
                match self.lookup_function(name.as_str()) {
                    Some((param_types, _return_type)) => {
                        if args.len() != param_types.len() {
                            let mut msg: Vec<char> = Vec::new();
                            text::push_str_chars(&mut msg, "Function ");
                            text::push_str_chars(&mut msg, name.as_str());
                            text::push_str_chars(&mut msg, " expects ");
                            text::push_dec(&mut msg, param_types.len());
                            text::push_str_chars(&mut msg, " arguments, got ");
                            text::push_dec(&mut msg, args.len());
                            return Err(CompilerError::SemanticError(text::chars_to_string(&msg)));
                        }
                        proof {
                            assert(decreases_to!(ast => *args));
                        }
                        match self.analyze_args(args, &param_types) {
                            Ok(analyzed_args) => Ok(
                                AstNode::FunctionCall { name: name.clone(), args: analyzed_args },
                            ),
                            Err(e) => Err(e),
                        }
                    },
                    None => {
                        let mut msg: Vec<char> = Vec::new();
                        text::push_str_chars(&mut msg, "Undefined function: ");
                        text::push_str_chars(&mut msg, name.as_str());
                        Err(CompilerError::SemanticError(text::chars_to_string(&msg)))
                    },
                }
            },
            AstNode::Identifier(name) => {
                if self.is_variable_defined(name.as_str()) {
                    Ok(ast.duplicate())
                } else {
                    let mut msg: Vec<char> = Vec::new();
                    text::push_str_chars(&mut msg, "Undefined variable: ");
                    text::push_str_chars(&mut msg, name.as_str());
                    Err(CompilerError::SemanticError(text::chars_to_string(&msg)))
                }
            },
            AstNode::StringLiteral(_) => Ok(ast.duplicate()),
            AstNode::NumberLiteral(_) => Ok(ast.duplicate()),
            AstNode::BooleanLiteral(_) => Ok(ast.duplicate()),
            AstNode::ForStatement { counter_var, condition, body } => {
                let mut fresh: Vec<(String, KururiType)> = Vec::new();
                fresh.push((counter_var.clone(), KururiType::Number));
                self.scopes.push(fresh);
                proof {
                    assert(self.scopes_model() =~~= old(self).scopes_model().push(
                        seq![(counter_var@, TypeModel::Number)],
                    ));
                    assert(decreases_to!(ast => **condition));
                }
                let analyzed_condition = match self.analyze_ast(condition) {
                    Ok(n) => n,
                    Err(e) => {
                        self.exit_scope();
                        return Err(e);
                    },
                };
                proof {
                    lemma_analyze_frame(
                        old(self).scopes_model().push(seq![(counter_var@, TypeModel::Number)]),
                        condition.model(),
                    );
                    assert(decreases_to!(ast => *body));
                }
                let analyzed_body = match self.analyze_list(body) {
                    Ok(l) => l,
                    Err(e) => {
                        self.exit_scope();
                        return Err(e);
                    },
                };
                self.exit_scope();
                Ok(
                    AstNode::ForStatement {
                        counter_var: counter_var.clone(),
                        condition: Box::new(analyzed_condition),
                        body: analyzed_body,
                    },
                )
            },
            AstNode::IfStatement { .. } => self.analyze_if(ast),
            AstNode::WhileStatement { condition, body } => {
                proof {
                    assert(decreases_to!(ast => **condition));
                }
                let analyzed_condition = match self.analyze_ast(condition) {
                    Ok(n) => n,
                    Err(e) => {
                        return Err(e);
                    },
                };
                proof {
                    lemma_analyze_frame(old(self).scopes_model(), condition.model());
                }
                self.enter_scope();
                proof {
                    assert(decreases_to!(ast => *body));
                }
                let analyzed_body = match self.analyze_list(body) {
                    Ok(l) => l,
                    Err(e) => {
                        self.exit_scope();
                        return Err(e);
                    },
                };
                self.exit_scope();
                Ok(
                    AstNode::WhileStatement {
                        condition: Box::new(analyzed_condition),
                        body: analyzed_body,
                    },
                )
            },
            AstNode::ForeachStatement { var_name, iterable, body } => {
                proof {
                    assert(decreases_to!(ast => **iterable));
                }
                let analyzed_iterable = match self.analyze_ast(iterable) {
                    Ok(n) => n,
                    Err(e) => {
                        return Err(e);
                    },
                };
                proof {
                    lemma_analyze_frame(old(self).scopes_model(), iterable.model());
                }
                self.enter_scope();
                proof {
                    assert(decreases_to!(ast => *body));
                }
                let analyzed_body = match self.analyze_list(body) {
                    Ok(l) => l,
                    Err(e) => {
                        self.exit_scope();
                        return Err(e);
                    },
                };
                self.exit_scope();
                Ok(
                    AstNode::ForeachStatement {
                        var_name: var_name.clone(),
                        iterable: Box::new(analyzed_iterable),
                        body: analyzed_body,
                    },
                )
            },
            AstNode::ClassDeclaration { .. } => Err(
                CompilerError::SemanticError(
                    String::from_str("Class declarations are not supported"),
                ),
            ),
            AstNode::MethodCall { .. } => Err(
                CompilerError::SemanticError(String::from_str("Method calls are not supported")),
            ),
            AstNode::PropertyAccess { .. } => Err(
                CompilerError::SemanticError(String::from_str("Member access is not supported")),
            ),
            AstNode::NewExpression { .. } => Err(
                CompilerError::SemanticError(
                    String::from_str("new expressions are not supported"),
                ),
            ),
            AstNode::Assignment { target, value } => {
                proof {
                    reveal_with_fuel(AstNode::model, 3);
                }
                match &**target {
                    AstNode::Identifier(var_name) => {
                        if !self.is_variable_defined(var_name.as_str()) {
                            let mut msg: Vec<char> = Vec::new();
                            text::push_str_chars(&mut msg, "Undefined variable: ");
                            text::push_str_chars(&mut msg, var_name.as_str());
                            return Err(CompilerError::SemanticError(text::chars_to_string(&msg)));
                        }
                    },
                    _ => {
                        return Err(
                            CompilerError::SemanticError(
                                String::from_str("Assignment target must be an identifier"),
                            ),
                        );
                    },
                }
                proof {
                    assert(decreases_to!(ast => **value));
                }
                let analyzed_value = match self.analyze_ast(value) {
                    Ok(n) => n,
                    Err(e) => {
                        return Err(e);
                    },
                };
                Ok(
                    AstNode::Assignment {
                        target: Box::new(target.duplicate()),
                        value: Box::new(analyzed_value),
                    },
                )
            },
            AstNode::BinaryExpression { left, operator, right } => {
                proof {
                    assert(decreases_to!(ast => **left));
                }
                let analyzed_left = match self.analyze_ast(left) {
                    Ok(n) => n,
                    Err(e) => {
                        return Err(e);
                    },
                };
                proof {
                    lemma_analyze_frame(old(self).scopes_model(), left.model());
                    assert(decreases_to!(ast => **right));
                }
                let analyzed_right = match self.analyze_ast(right) {
                    Ok(n) => n,
                    Err(e) => {
                        return Err(e);
                    },
                };
                Ok(
                    AstNode::BinaryExpression {
                        left: Box::new(analyzed_left),
                        operator: operator.duplicate(),
                        right: Box::new(analyzed_right),
                    },
                )
            },
            _ => Ok(ast.duplicate()),
        }
    }


    /// Analyzes an `if` statement: its condition, its `then` body under a
    /// fresh scope, each `elseif` branch, and the optional `else` body
    /// under a fresh scope.
    #[verifier::rlimit(100)]
    #[verifier::spinoff_prover]
    fn analyze_if(&mut self, ast: &AstNode) -> (r: Result<AstNode, CompilerError>)
        requires
            old(self).wf(),
            ast matches AstNode::IfStatement { .. },
        ensures
            final(self).wf(),
            match spec_analyze(old(self).scopes_model(), ast.model()) {
                Ok(ns) => (r matches Ok(n) && n.model() == ns.0 && final(self).scopes_model()
                    == ns.1),
                Err(m) => (r matches Err(e) && e.deep_view() == ErrorModel::Semantic(m)),
            },
            r is Err ==> final(self).scopes_model().len() == old(self).scopes_model().len(),
        decreases ast, 0int,
    {
        match ast {
            AstNode::IfStatement { condition, then_body, elseif_branches, else_body } => {
                proof {
                    assert(decreases_to!(ast => **condition));
                }
                let analyzed_condition = match self.analyze_ast(condition) {
                    Ok(n) => n,
                    Err(e) => {
                        return Err(e);
                    },
                };
                proof {
                    lemma_analyze_frame(old(self).scopes_model(), condition.model());
                }
                let ghost sc_cond = self.scopes_model();
                self.enter_scope();
                proof {
                    assert(decreases_to!(ast => *then_body));
                }
                let analyzed_then = match self.analyze_list(then_body) {
                    Ok(l) => l,
                    Err(e) => {
                        self.exit_scope();
                        return Err(e);
                    },
                };
                self.exit_scope();
                proof {
                    lemma_analyze_list_frame(
                        sc_cond.push(Seq::empty()),
                        AstNode::models(then_body@),
                    );
                    assert(decreases_to!(ast => *elseif_branches));
                }
                let ghost sc_then = self.scopes_model();
                let analyzed_branches = match self.analyze_branches(elseif_branches) {
                    Ok(b) => b,
                    Err(e) => {
                        return Err(e);
                    },
                };
                proof {
                    lemma_analyze_branches_frame(
                        sc_then,
                        AstNode::branches_model(elseif_branches@),
                    );
                }
                let analyzed_else = match else_body {
                    Some(else_statements) => {
                        self.enter_scope();
                        proof {
                            assert(decreases_to!(ast => *else_statements));
                        }
                        let l = match self.analyze_list(else_statements) {
                            Ok(l) => l,
                            Err(e) => {
                                self.exit_scope();
                                return Err(e);
                            },
                        };
                        self.exit_scope();
                        Some(l)
                    },
                    None => None,
                };
                Ok(
                    AstNode::IfStatement {
                        condition: Box::new(analyzed_condition),
                        then_body: analyzed_then,
                        elseif_branches: analyzed_branches,
                        else_body: analyzed_else,
                    },
                )
            },
            _ => {
                proof {
                    assert(false);
                }
                Err(CompilerError::SemanticError(String::from_str("Member access is not supported")))
            },
        }
    }

    /// Analyzes the `elseif` branches of an `if`, in order.
    #[verifier::loop_isolation(false)]
    #[verifier::rlimit(100)]
    #[verifier::spinoff_prover]
    fn analyze_branches(&mut self, branches: &Vec<(AstNode, Vec<AstNode>)>) -> (r: Result<
        Vec<(AstNode, Vec<AstNode>)>,
        CompilerError,
    >)
        requires
            old(self).wf(),
        ensures
            final(self).wf(),
            match spec_analyze_branches(
                old(self).scopes_model(),
                AstNode::branches_model(branches@),
            ) {
                Ok(bs) => (r matches Ok(l) && AstNode::branches_model(l@) == bs.0 && final(self).scopes_model() == bs.1),
                Err(m) => (r matches Err(e) && e.deep_view() == ErrorModel::Semantic(m)),
            },
            r is Err ==> final(self).scopes_model().len() == old(self).scopes_model().len(),
        decreases branches, 1int,
    {
        let ghost t = AstNode::branches_model(branches@);
        let ghost sc0 = self.scopes_model();
        proof {
            crate::ast::lemma_branches_model_index(branches@);
            assert(t.skip(0) =~= t);
        }
        let mut analyzed: Vec<(AstNode, Vec<AstNode>)> = Vec::new();
        proof {
            crate::ast::lemma_branches_model_index(analyzed@);
            assert(AstNode::branches_model(analyzed@) =~= Seq::<
                (AstModel, Seq<AstModel>),
            >::empty());
            match spec_analyze_branches(sc0, t) {
                Ok(bs) => {
                    assert(Seq::<(AstModel, Seq<AstModel>)>::empty() + bs.0 =~= bs.0);
                },
                Err(_) => {},
            }
        }
        let n = branches.len();
        let mut k: usize = 0;
        while k < n
            invariant
                self.wf(),
                k <= n,
                self.scopes_model().len() == sc0.len(),
                spec_branches_join(AstNode::branches_model(analyzed@), spec_analyze_branches(
                    self.scopes_model(),
                    t.skip(k as int),
                )) == spec_analyze_branches(sc0, t),
            decreases n - k,
        {
            let ghost acc = AstNode::branches_model(analyzed@);
            proof {
                lemma_branches_step(sc0, t, acc, self.scopes_model(), k as int);
                lemma_analyze_frame(self.scopes_model(), t[k as int].0);
                assert(decreases_to!(branches => branches@[k as int]));
                assert(decreases_to!(branches@[k as int] => branches@[k as int].0));
                assert(decreases_to!(branches@[k as int] => branches@[k as int].1));
            }
            let cond = match self.analyze_ast(&branches[k].0) {
                Ok(n) => n,
                Err(e) => {
                    return Err(e);
                },
            };
            let ghost sc_cond = self.scopes_model();
            self.enter_scope();
            let body = match self.analyze_list(&branches[k].1) {
                Ok(l) => l,
                Err(e) => {
                    self.exit_scope();
                    return Err(e);
                },
            };
            self.exit_scope();
            proof {
                lemma_analyze_list_frame(
                    sc_cond.push(Seq::empty()),
                    AstNode::models(branches@[k as int].1@),
                );
            }
            let ghost branch_model = (cond.model(), AstNode::models(body@));
            let ghost old_list = analyzed@;
            analyzed.push((cond, body));
            k = k + 1;
            proof {
                crate::ast::lemma_branches_model_index(old_list);
                crate::ast::lemma_branches_model_index(analyzed@);
                assert(AstNode::branches_model(analyzed@) =~= acc.push(branch_model));
            }
        }
        proof {
            assert(t.skip(n as int) =~= Seq::<(AstModel, Seq<AstModel>)>::empty());
            match spec_analyze_branches(sc0, t) {
                Ok(bs) => {
                    assert(AstNode::branches_model(analyzed@) + Seq::<
                        (AstModel, Seq<AstModel>),
                    >::empty() =~= AstNode::branches_model(analyzed@));
                },
                Err(_) => {},
            }
        }
        Ok(analyzed)
    }

    /// Passes a non-empty list through unchanged (the older transport
    /// shape); an empty list is a semantic diagnostic.
    pub fn analyze(&self, ast: &[String]) -> (r: Result<Vec<String>, CompilerError>)
        ensures
            ast@.len() == 0 ==> (r matches Err(e) && e.deep_view() == ErrorModel::Semantic(
                "No AST to analyze"@,
            )),
            ast@.len() != 0 ==> (r matches Ok(v) && v.deep_view() == ast.deep_view()),
    {
        if ast.is_empty() {
            return Err(CompilerError::SemanticError(String::from_str("No AST to analyze")));
        }
        Ok(copy_strings(ast))
    }
}

/// An owned copy of a string list.
pub fn copy_strings(v: &[String]) -> (r: Vec<String>)
    ensures
        r.deep_view() == v.deep_view(),
{
    let mut r: Vec<String> = Vec::new();
    let n = v.len();
    let mut i: usize = 0;
    while i < n
        invariant
            n == v@.len(),
            i <= n,
            r@.len() == i,
            forall|k: int| 0 <= k < i ==> (#[trigger] r@[k])@ == v@[k]@,
        decreases n - i,
    {
        r.push(v[i].clone());
        i = i + 1;
    }
    proof {
        assert(r.deep_view() =~= v.deep_view());
    }
    r
}

/// An owned copy of a type list.
fn duplicate_types(v: &Vec<KururiType>) -> (r: Vec<KururiType>)
    ensures
        r.deep_view() == v.deep_view(),
{
    let mut r: Vec<KururiType> = Vec::new();
    let n = v.len();
    let mut i: usize = 0;
    while i < n
        invariant
            n == v@.len(),
            i <= n,
            r@.len() == i,
            forall|k: int| 0 <= k < i ==> (#[trigger] r@[k]).model() == v@[k].model(),
        decreases n - i,
    {
        r.push(v[i].duplicate());
        i = i + 1;
    }
    proof {
        assert(r.deep_view() =~= v.deep_view());
    }
    r
}

impl Default for SemanticAnalyzer {
    /// A fresh analyzer, as [`SemanticAnalyzer::new`] gives.
    fn default() -> (r: SemanticAnalyzer)
        ensures
            r.wf(),
            r.scopes_model() == seq![Seq::<(Seq<char>, TypeModel)>::empty()],
    {
        SemanticAnalyzer::new()
    }
}

// ---------------------------------------------------------------------------
// Joining loop progress with the remaining walk
// ---------------------------------------------------------------------------
/// Joins already-analyzed statements with the outcome of the rest.
pub open spec fn spec_list_join(
    acc: Seq<AstModel>,
    r: Result<(Seq<AstModel>, ScopeStackModel), Seq<char>>,
) -> Result<(Seq<AstModel>, ScopeStackModel), Seq<char>> {
    match r {
        Ok(ls) => Ok((acc + ls.0, ls.1)),
        Err(m) => Err(m),
    }
}

/// As [`spec_list_join`], for argument analysis.
pub open spec fn spec_args_join(
    acc: Seq<AstModel>,
    r: Result<(Seq<AstModel>, ScopeStackModel), Seq<char>>,
) -> Result<(Seq<AstModel>, ScopeStackModel), Seq<char>> {
    match r {
        Ok(ar) => Ok((acc + ar.0, ar.1)),
        Err(m) => Err(m),
    }
}

/// As [`spec_list_join`], for `elseif` branch analysis.
pub open spec fn spec_branches_join(
    acc: Seq<(AstModel, Seq<AstModel>)>,
    r: Result<(Seq<(AstModel, Seq<AstModel>)>, ScopeStackModel), Seq<char>>,
) -> Result<(Seq<(AstModel, Seq<AstModel>)>, ScopeStackModel), Seq<char>> {
    match r {
        Ok(bs) => Ok((acc + bs.0, bs.1)),
        Err(m) => Err(m),
    }
}

proof fn lemma_branches_step(
    sc0: ScopeStackModel,
    t: Seq<(AstModel, Seq<AstModel>)>,
    acc: Seq<(AstModel, Seq<AstModel>)>,
    sc: ScopeStackModel,
    k: int,
)
    requires
        0 <= k < t.len(),
        spec_branches_join(acc, spec_analyze_branches(sc, t.skip(k))) == spec_analyze_branches(
            sc0,
            t,
        ),
    ensures
        spec_analyze(sc, t[k].0) matches Err(m) ==> spec_analyze_branches(sc0, t) == Err::<
            (Seq<(AstModel, Seq<AstModel>)>, ScopeStackModel),
            Seq<char>,
        >(m),
        spec_analyze(sc, t[k].0) matches Ok(cs) ==> (match spec_analyze_list(
            cs.1.push(Seq::empty()),
            t[k].1,
        ) {
            Ok(bs) => spec_branches_join(acc.push((cs.0, bs.0)), spec_analyze_branches(
                spec_pop(bs.1),
                t.skip(k + 1),
            )) == spec_analyze_branches(sc0, t),
            Err(m) => spec_analyze_branches(sc0, t) == Err::<
                (Seq<(AstModel, Seq<AstModel>)>, ScopeStackModel),
                Seq<char>,
            >(m),
        }),
{
    assert(t.skip(k).len() > 0);
    assert(t.skip(k)[0] == t[k]);
    assert(t.skip(k).drop_first() =~= t.skip(k + 1));
    match spec_analyze(sc, t[k].0) {
        Ok(cs) => {
            match spec_analyze_list(cs.1.push(Seq::empty()), t[k].1) {
                Ok(bs) => {
                    match spec_analyze_branches(spec_pop(bs.1), t.skip(k + 1)) {
                        Ok(rs) => {
                            assert(acc + (seq![(cs.0, bs.0)] + rs.0) =~= acc.push((cs.0, bs.0))
                                + rs.0);
                        },
                        Err(_) => {},
                    }
                },
                Err(_) => {},
            }
        },
        Err(_) => {},
    }
}

proof fn lemma_list_step(
    sc0: ScopeStackModel,
    t: Seq<AstModel>,
    acc: Seq<AstModel>,
    sc: ScopeStackModel,
    i: int,
)
    requires
        0 <= i < t.len(),
        spec_list_join(acc, spec_analyze_list(sc, t.skip(i))) == spec_analyze_list(sc0, t),
    ensures
        spec_analyze(sc, t[i]) matches Ok(ns) ==> spec_list_join(
            acc.push(ns.0),
            spec_analyze_list(ns.1, t.skip(i + 1)),
        ) == spec_analyze_list(sc0, t),
        spec_analyze(sc, t[i]) matches Err(m) ==> spec_analyze_list(sc0, t) == Err::<
            (Seq<AstModel>, ScopeStackModel),
            Seq<char>,
        >(m),
{
    assert(t.skip(i).len() > 0);
    assert(t.skip(i)[0] == t[i]);
    assert(t.skip(i).drop_first() =~= t.skip(i + 1));
    match spec_analyze(sc, t[i]) {
        Ok(ns) => {
            match spec_analyze_list(ns.1, t.skip(i + 1)) {
                Ok(ls) => {
                    assert(acc + (seq![ns.0] + ls.0) =~= acc.push(ns.0) + ls.0);
                },
                Err(_) => {},
            }
        },
        Err(_) => {},
    }
}

proof fn lemma_args_step(
    sc0: ScopeStackModel,
    t: Seq<AstModel>,
    ps: Seq<TypeModel>,
    acc: Seq<AstModel>,
    sc: ScopeStackModel,
    i: int,
)
    requires
        0 <= i < t.len(),
        0 <= i < ps.len(),
        spec_args_join(acc, spec_analyze_args(sc, t.skip(i), ps.skip(i), i + 1))
            == spec_analyze_args(sc0, t, ps, 1),
    ensures
        spec_analyze(sc, t[i]) matches Ok(ar) ==> (match spec_expr_type(ar.1, t[i]) {
            Ok(at) => if at == ps[i] {
                spec_args_join(acc.push(ar.0), spec_analyze_args(
                    ar.1,
                    t.skip(i + 1),
                    ps.skip(i + 1),
                    i + 2,
                )) == spec_analyze_args(sc0, t, ps, 1)
            } else {
                spec_analyze_args(sc0, t, ps, 1) == Err::<
                    (Seq<AstModel>, ScopeStackModel),
                    Seq<char>,
                >(argument_mismatch_message(i + 1, ps[i], at))
            },
            Err(m) => spec_analyze_args(sc0, t, ps, 1) == Err::<
                (Seq<AstModel>, ScopeStackModel),
                Seq<char>,
            >(m),
        }),
        spec_analyze(sc, t[i]) matches Err(m) ==> spec_analyze_args(sc0, t, ps, 1) == Err::<
            (Seq<AstModel>, ScopeStackModel),
            Seq<char>,
        >(m),
{
    assert(t.skip(i).len() > 0);
    assert(ps.skip(i).len() > 0);
    assert(t.skip(i)[0] == t[i]);
    assert(ps.skip(i)[0] == ps[i]);
    assert(t.skip(i).drop_first() =~= t.skip(i + 1));
    assert(ps.skip(i).drop_first() =~= ps.skip(i + 1));
    match spec_analyze(sc, t[i]) {
        Ok(ar) => {
            match spec_expr_type(ar.1, t[i]) {
                Ok(at) => {
                    if at == ps[i] {
                        match spec_analyze_args(ar.1, t.skip(i + 1), ps.skip(i + 1), i + 2) {
                            Ok(rest) => {
                                assert(acc + (seq![ar.0] + rest.0) =~= acc.push(ar.0) + rest.0);
                            },
                            Err(_) => {},
                        }
                    }
                },
                Err(_) => {},
            }
        },
        Err(_) => {},
    }
}


// ---------------------------------------------------------------------------
// Laws of the walk
// ---------------------------------------------------------------------------
/// The walk only ever touches the innermost scope: a successful analysis
/// keeps the stack's length and every outer scope unchanged.
pub proof fn lemma_analyze_frame(sc: ScopeStackModel, e: AstModel)
    ensures
        spec_analyze(sc, e) matches Ok(ns) ==> ns.1.len() == sc.len() && (forall|k: int|
            0 <= k < sc.len() - 1 ==> ns.1[k] == sc[k]),
    decreases e, 0int,
{
    match e {
        AstModel::Program(stmts) => {
            lemma_analyze_list_frame(sc, stmts);
        },
        AstModel::FunctionDeclaration { body, .. } => {
            lemma_analyze_list_frame(sc, body);
        },
        AstModel::VariableDeclaration { value, .. } => {
            lemma_analyze_frame(sc, *value);
        },
        AstModel::FunctionCall { name, args } => {
            match spec_fn_sig(name) {
                Some(sig) => {
                    lemma_analyze_args_frame(sc, args, sig.0, 1);
                },
                None => {},
            }
        },
        AstModel::ForStatement { counter_var, condition, body } => {
            let pushed = sc.push(seq![(counter_var, TypeModel::Number)]);
            lemma_analyze_frame(pushed, *condition);
            match spec_analyze(pushed, *condition) {
                Ok(cs) => {
                    lemma_analyze_list_frame(cs.1, body);
                    match spec_analyze_list(cs.1, body) {
                        Ok(ls) => {
                            assert forall|k: int| 0 <= k < sc.len() implies ls.1[k] == sc[k] by {
                                assert(pushed[k] == sc[k]);
                                assert(cs.1[k] == pushed[k]);
                                assert(ls.1[k] == cs.1[k]);
                            }
                        },
                        Err(_) => {},
                    }
                },
                Err(_) => {},
            }
        },
        AstModel::IfStatement { condition, then_body, elseif_branches, else_body } => {
            lemma_analyze_frame(sc, *condition);
            match spec_analyze(sc, *condition) {
                Ok(cs) => {
                    lemma_body_scope_restored(cs.1, Seq::empty(), then_body);
                    match spec_analyze_list(cs.1.push(Seq::empty()), then_body) {
                        Ok(ts) => {
                            lemma_analyze_branches_frame(spec_pop(ts.1), elseif_branches);
                            match spec_analyze_branches(spec_pop(ts.1), elseif_branches) {
                                Ok(es) => {
                                    assert forall|k: int|
                                        0 <= k < sc.len() - 1 implies es.1[k] == sc[k] by {
                                        assert(es.1[k] == cs.1[k]);
                                        assert(cs.1[k] == sc[k]);
                                    }
                                    match else_body {
                                        Some(eb) => {
                                            lemma_body_scope_restored(es.1, Seq::empty(), eb);
                                        },
                                        None => {},
                                    }
                                },
                                Err(_) => {},
                            }
                        },
                        Err(_) => {},
                    }
                },
                Err(_) => {},
            }
        },
        AstModel::WhileStatement { condition, body } => {
            lemma_analyze_frame(sc, *condition);
            match spec_analyze(sc, *condition) {
                Ok(cs) => {
                    lemma_body_scope_restored(cs.1, Seq::empty(), body);
                },
                Err(_) => {},
            }
        },
        AstModel::ForeachStatement { iterable, body, .. } => {
            lemma_analyze_frame(sc, *iterable);
            match spec_analyze(sc, *iterable) {
                Ok(is) => {
                    lemma_body_scope_restored(is.1, Seq::empty(), body);
                },
                Err(_) => {},
            }
        },
        AstModel::Assignment { target, value } => {
            lemma_analyze_frame(sc, *value);
        },
        AstModel::BinaryExpression { left, right, .. } => {
            lemma_analyze_frame(sc, *left);
            match spec_analyze(sc, *left) {
                Ok(lsr) => {
                    lemma_analyze_frame(lsr.1, *right);
                },
                Err(_) => {},
            }
        },
        _ => {},
    }
}

/// As [`lemma_analyze_frame`], for a statement list.
pub proof fn lemma_analyze_list_frame(sc: ScopeStackModel, stmts: Seq<AstModel>)
    ensures
        spec_analyze_list(sc, stmts) matches Ok(ls) ==> ls.1.len() == sc.len() && (forall|k: int|
            0 <= k < sc.len() - 1 ==> ls.1[k] == sc[k]),
    decreases stmts, 1int,
{
    if stmts.len() > 0 {
        lemma_analyze_frame(sc, stmts[0]);
        match spec_analyze(sc, stmts[0]) {
            Ok(ns) => {
                lemma_analyze_list_frame(ns.1, stmts.drop_first());
            },
            Err(_) => {},
        }
    }
}

/// As [`lemma_analyze_frame`], for a call's argument list.
pub proof fn lemma_analyze_args_frame(
    sc: ScopeStackModel,
    args: Seq<AstModel>,
    params: Seq<TypeModel>,
    pos: int,
)
    ensures
        spec_analyze_args(sc, args, params, pos) matches Ok(ar) ==> ar.1.len() == sc.len() && (
        forall|k: int| 0 <= k < sc.len() - 1 ==> ar.1[k] == sc[k]),
    decreases args, 1int,
{
    if args.len() > 0 && params.len() > 0 {
        lemma_analyze_frame(sc, args[0]);
        match spec_analyze(sc, args[0]) {
            Ok(ar) => {
                lemma_analyze_args_frame(ar.1, args.drop_first(), params.drop_first(), pos + 1);
            },
            Err(_) => {},
        }
    }
}

/// Opening a fresh scope, analyzing a body list under it, and closing it
/// hands back exactly the stack from before the block.
pub proof fn lemma_body_scope_restored(
    sc: ScopeStackModel,
    inner: ScopeModel,
    body: Seq<AstModel>,
)
    ensures
        spec_analyze_list(sc.push(inner), body) matches Ok(ls) ==> ls.1.len() == sc.len() + 1
            && spec_pop(ls.1) == sc,
    decreases body, 2int,
{
    lemma_analyze_list_frame(sc.push(inner), body);
    match spec_analyze_list(sc.push(inner), body) {
        Ok(ls) => {
            assert forall|k: int| 0 <= k < sc.len() implies ls.1[k] == sc[k] by {
                assert(sc.push(inner)[k] == sc[k]);
                assert(ls.1[k] == sc.push(inner)[k]);
            }
            assert(ls.1.drop_last() =~= sc);
        },
        Err(_) => {},
    }
}

/// As [`lemma_analyze_frame`], for an `elseif` branch list.
pub proof fn lemma_analyze_branches_frame(
    sc: ScopeStackModel,
    branches: Seq<(AstModel, Seq<AstModel>)>,
)
    ensures
        spec_analyze_branches(sc, branches) matches Ok(bs) ==> bs.1.len() == sc.len() && (forall|
            k: int,
        | 0 <= k < sc.len() - 1 ==> bs.1[k] == sc[k]),
    decreases branches, 1int,
{
    if branches.len() > 0 {
        lemma_analyze_frame(sc, branches[0].0);
        match spec_analyze(sc, branches[0].0) {
            Ok(cs) => {
                lemma_body_scope_restored(cs.1, Seq::empty(), branches[0].1);
                match spec_analyze_list(cs.1.push(Seq::empty()), branches[0].1) {
                    Ok(bs2) => {
                        lemma_analyze_branches_frame(spec_pop(bs2.1), branches.drop_first());
                        match spec_analyze_branches(spec_pop(bs2.1), branches.drop_first()) {
                            Ok(rs) => {
                                assert forall|k: int|
                                    0 <= k < sc.len() - 1 implies rs.1[k] == sc[k] by {
                                    assert(rs.1[k] == cs.1[k]);
                                    assert(cs.1[k] == sc[k]);
                                }
                            },
                            Err(_) => {},
                        }
                    },
                    Err(_) => {},
                }
            },
            Err(_) => {},
        }
    }
}

/// Scope locality: a binding declared inside a block dies with the block's
/// scope. Every block body of the walk — an `if` body, an `elseif` body,
/// an `else` body, a `while`, `for` or `foreach` body — is analyzed under
/// a freshly opened scope (`inner` is empty, or the `for` counter binding)
/// that is closed afterwards; the close hands back exactly the stack from
/// before the open, so every name resolves after the block as it did
/// before it.
pub proof fn lemma_scope_locality(
    sc: ScopeStackModel,
    inner: ScopeModel,
    body: Seq<AstModel>,
    name: Seq<char>,
)
    ensures
        spec_analyze_list(sc.push(inner), body) matches Ok(ls) ==> spec_pop(ls.1) == sc
            && lookup_stack(spec_pop(ls.1), name) == lookup_stack(sc, name),
{
    lemma_body_scope_restored(sc, inner, body);
}

/// A whole `for` statement leaves the scope stack exactly as it found it:
/// the counter binding and the body's bindings die with the loop's scope.
pub proof fn lemma_for_statement_scopes(sc: ScopeStackModel, stmt: AstModel, name: Seq<char>)
    requires
        stmt is ForStatement,
    ensures
        spec_analyze(sc, stmt) matches Ok(ns) ==> ns.1 == sc && lookup_stack(ns.1, name)
            == lookup_stack(sc, name),
{
    match stmt {
        AstModel::ForStatement { counter_var, condition, body } => {
            let pushed = sc.push(seq![(counter_var, TypeModel::Number)]);
            lemma_analyze_frame(pushed, *condition);
            match spec_analyze(pushed, *condition) {
                Ok(cs) => {
                    lemma_analyze_list_frame(cs.1, body);
                    match spec_analyze_list(cs.1, body) {
                        Ok(ls) => {
                            assert(ls.1.len() == sc.len() + 1);
                            assert forall|k: int| 0 <= k < sc.len() implies ls.1[k] == sc[k] by {
                                assert(pushed[k] == sc[k]);
                                assert(cs.1[k] == pushed[k]);
                                assert(ls.1[k] == cs.1[k]);
                            }
                            assert(ls.1.drop_last() =~= sc);
                        },
                        Err(_) => {},
                    }
                },
                Err(_) => {},
            }
        },
        _ => {},
    }
}

/// Type strictness: `let x: T = e` analyzes successfully exactly when `e`
/// analyzes successfully and its computed type equals `T`.
pub proof fn lemma_let_type_strictness(sc: ScopeStackModel, d: AstModel)
    requires
        d is VariableDeclaration,
    ensures
        (spec_analyze(sc, d) is Ok) <==> (match d {
            AstModel::VariableDeclaration { var_type, value, .. } => {
                &&& spec_analyze(sc, *value) is Ok
                &&& (match spec_analyze(sc, *value) {
                    Ok(vs) => spec_expr_type(vs.1, *value) == Ok::<TypeModel, Seq<char>>(var_type),
                    Err(_) => false,
                })
            },
            _ => false,
        }),
{
}

/// Arity strictness: a call to an unknown function is rejected; a call with
/// the wrong argument count is rejected naming both counts; with the right
/// count, the call succeeds exactly when every argument analyzes and each
/// computed type equals the declared parameter type.
pub proof fn lemma_call_arity_strictness(sc: ScopeStackModel, c: AstModel)
    requires
        c is FunctionCall,
    ensures
        (match c {
            AstModel::FunctionCall { name, args } => {
                &&& (spec_fn_sig(name) is None ==> spec_analyze(sc, c) == Err::<
                    (AstModel, ScopeStackModel),
                    Seq<char>,
                >(undefined_function_message(name)))
                &&& (match spec_fn_sig(name) {
                    Some(sig) => {
                        &&& (args.len() != sig.0.len() ==> spec_analyze(sc, c) == Err::<
                            (AstModel, ScopeStackModel),
                            Seq<char>,
                        >(arity_message(name, sig.0.len() as int, args.len() as int)))
                        &&& (args.len() == sig.0.len() ==> ((spec_analyze(sc, c) is Ok) <==> (
                        spec_analyze_args(sc, args, sig.0, 1) is Ok)))
                    },
                    None => true,
                })
            },
            _ => false,
        }),
{
}

} // verus!
