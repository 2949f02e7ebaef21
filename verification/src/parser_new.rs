//! Two stand-in parsers kept beside the grammar parser of
//! [`crate::parser`], which is what the pipeline driver runs.
//!
//! [`NewParser::parse_example_kururi`] accepts any non-empty token stream
//! and produces one fixed program — the multiplication-table example — whose
//! shape is pinned down by [`spec_example_program`]. It exercises the other
//! stages independently of the grammar.
//!
//! [`NewParser::parse_generic`] is a minimal dispatching parser that
//! recognises only the leading keyword of each statement.

use vstd::prelude::*;

use crate::ast::{AstModel, AstNode, BinaryOperator, KururiType, TypeModel};
use crate::error::{CompilerError, ErrorModel};
use crate::text;
use crate::token::{Token, TokenModel};

verus! {

// ---------------------------------------------------------------------------
// The fixed example program
// ---------------------------------------------------------------------------
/// `output("掛け算九九の表")`
pub open spec fn spec_example_title() -> AstModel {
    AstModel::FunctionCall {
        name: "output"@,
        args: seq![AstModel::StringLiteral("掛け算九九の表"@)],
    }
}

/// `output("=================")`
pub open spec fn spec_example_rule() -> AstModel {
    AstModel::FunctionCall {
        name: "output"@,
        args: seq![AstModel::StringLiteral("================="@)],
    }
}

/// `let row: string = ""`
pub open spec fn spec_example_row_decl() -> AstModel {
    AstModel::VariableDeclaration {
        is_const: false,
        name: "row"@,
        var_type: TypeModel::String,
        value: Box::new(AstModel::StringLiteral(""@)),
    }
}

/// `let num1: number = i + 1`
pub open spec fn spec_example_num1() -> AstModel {
    AstModel::VariableDeclaration {
        is_const: false,
        name: "num1"@,
        var_type: TypeModel::Number,
        value: Box::new(
            AstModel::BinaryExpression {
                left: Box::new(AstModel::Identifier("i"@)),
                operator: BinaryOperator::Add,
                right: Box::new(AstModel::NumberLiteral("1"@)),
            },
        ),
    }
}

/// `let num2: number = j + 1`
pub open spec fn spec_example_num2() -> AstModel {
    AstModel::VariableDeclaration {
        is_const: false,
        name: "num2"@,
        var_type: TypeModel::Number,
        value: Box::new(
            AstModel::BinaryExpression {
                left: Box::new(AstModel::Identifier("j"@)),
                operator: BinaryOperator::Add,
                right: Box::new(AstModel::NumberLiteral("1"@)),
            },
        ),
    }
}

/// `let result: number = num1 * num2`
pub open spec fn spec_example_result() -> AstModel {
    AstModel::VariableDeclaration {
        is_const: false,
        name: "result"@,
        var_type: TypeModel::Number,
        value: Box::new(
            AstModel::BinaryExpression {
                left: Box::new(AstModel::Identifier("num1"@)),
                operator: BinaryOperator::Multiply,
                right: Box::new(AstModel::Identifier("num2"@)),
            },
        ),
    }
}

/// `row = row + " " + result + " "`
pub open spec fn spec_example_then_assign() -> AstModel {
    AstModel::Assignment {
        target: Box::new(AstModel::Identifier("row"@)),
        value: Box::new(
            AstModel::BinaryExpression {
                left: Box::new(
                    AstModel::BinaryExpression {
                        left: Box::new(
                            AstModel::BinaryExpression {
                                left: Box::new(AstModel::Identifier("row"@)),
                                operator: BinaryOperator::Add,
                                right: Box::new(AstModel::StringLiteral(" "@)),
                            },
                        ),
                        operator: BinaryOperator::Add,
                        right: Box::new(AstModel::Identifier("result"@)),
                    },
                ),
                operator: BinaryOperator::Add,
                right: Box::new(AstModel::StringLiteral(" "@)),
            },
        ),
    }
}

/// `row = row + result + " "`
pub open spec fn spec_example_else_assign() -> AstModel {
    AstModel::Assignment {
        target: Box::new(AstModel::Identifier("row"@)),
        value: Box::new(
            AstModel::BinaryExpression {
                left: Box::new(
                    AstModel::BinaryExpression {
                        left: Box::new(AstModel::Identifier("row"@)),
                        operator: BinaryOperator::Add,
                        right: Box::new(AstModel::Identifier("result"@)),
                    },
                ),
                operator: BinaryOperator::Add,
                right: Box::new(AstModel::StringLiteral(" "@)),
            },
        ),
    }
}

/// `if result < 10 { … } else { … }`
pub open spec fn spec_example_if() -> AstModel {
    AstModel::IfStatement {
        condition: Box::new(
            AstModel::BinaryExpression {
                left: Box::new(AstModel::Identifier("result"@)),
                operator: BinaryOperator::LessThan,
                right: Box::new(AstModel::NumberLiteral("10"@)),
            },
        ),
        then_body: seq![spec_example_then_assign()],
        elseif_branches: Seq::empty(),
        else_body: Some(seq![spec_example_else_assign()]),
    }
}

/// `for j j < 9 { … }`
pub open spec fn spec_example_inner_for() -> AstModel {
    AstModel::ForStatement {
        counter_var: "j"@,
        condition: Box::new(
            AstModel::BinaryExpression {
                left: Box::new(AstModel::Identifier("j"@)),
                operator: BinaryOperator::LessThan,
                right: Box::new(AstModel::NumberLiteral("9"@)),
            },
        ),
        body: seq![
            spec_example_num1(),
            spec_example_num2(),
            spec_example_result(),
            spec_example_if(),
        ],
    }
}

/// `output(row)`
pub open spec fn spec_example_output_row() -> AstModel {
    AstModel::FunctionCall { name: "output"@, args: seq![AstModel::Identifier("row"@)] }
}

/// `for i i < 9 { … }`
pub open spec fn spec_example_outer_for() -> AstModel {
    AstModel::ForStatement {
        counter_var: "i"@,
        condition: Box::new(
            AstModel::BinaryExpression {
                left: Box::new(AstModel::Identifier("i"@)),
                operator: BinaryOperator::LessThan,
                right: Box::new(AstModel::NumberLiteral("9"@)),
            },
        ),
        body: seq![spec_example_row_decl(), spec_example_inner_for(), spec_example_output_row()],
    }
}

/// `function main(): void { … }`
pub open spec fn spec_example_main() -> AstModel {
    AstModel::FunctionDeclaration {
        name: "main"@,
        params: Seq::empty(),
        return_type: TypeModel::Void,
        body: seq![spec_example_title(), spec_example_rule(), spec_example_outer_for()],
        is_public: false,
    }
}

/// The whole fixed program: one `main` function printing the
/// multiplication table.
pub open spec fn spec_example_program() -> AstModel {
    AstModel::Program(seq![spec_example_main()])
}

// ---------------------------------------------------------------------------
// Building the fixed program
// ---------------------------------------------------------------------------
/// `row = row + " " + result + " "`
fn build_then_assign() -> (r: AstNode)
    ensures
        r.model() == spec_example_then_assign(),
{
    let r = AstNode::Assignment {
        target: Box::new(AstNode::Identifier(String::from_str("row"))),
        value: Box::new(
            AstNode::BinaryExpression {
                left: Box::new(
                    AstNode::BinaryExpression {
                        left: Box::new(
                            AstNode::BinaryExpression {
                                left: Box::new(AstNode::Identifier(String::from_str("row"))),
                                operator: BinaryOperator::Add,
                                right: Box::new(AstNode::StringLiteral(String::from_str(" "))),
                            },
                        ),
                        operator: BinaryOperator::Add,
                        right: Box::new(AstNode::Identifier(String::from_str("result"))),
                    },
                ),
                operator: BinaryOperator::Add,
                right: Box::new(AstNode::StringLiteral(String::from_str(" "))),
            },
        ),
    };
    proof {
        reveal_with_fuel(AstNode::model, 6);
        assert(r.model() == spec_example_then_assign());
    }
    r
}

/// `row = row + result + " "`
fn build_else_assign() -> (r: AstNode)
    ensures
        r.model() == spec_example_else_assign(),
{
    let r = AstNode::Assignment {
        target: Box::new(AstNode::Identifier(String::from_str("row"))),
        value: Box::new(
            AstNode::BinaryExpression {
                left: Box::new(
                    AstNode::BinaryExpression {
                        left: Box::new(AstNode::Identifier(String::from_str("row"))),
                        operator: BinaryOperator::Add,
                        right: Box::new(AstNode::Identifier(String::from_str("result"))),
                    },
                ),
                operator: BinaryOperator::Add,
                right: Box::new(AstNode::StringLiteral(String::from_str(" "))),
            },
        ),
    };
    proof {
        reveal_with_fuel(AstNode::model, 6);
        assert(r.model() == spec_example_else_assign());
    }
    r
}

/// `if result < 10 { … } else { … }`
fn build_example_if() -> (r: AstNode)
    ensures
        r.model() == spec_example_if(),
{
    let mut then_body: Vec<AstNode> = Vec::new();
    then_body.push(build_then_assign());
    let mut else_body: Vec<AstNode> = Vec::new();
    else_body.push(build_else_assign());
    proof {
        assert(then_body.deep_view() =~= seq![spec_example_then_assign()]);
        crate::ast::lemma_models_is_deep_view(then_body);
        assert(else_body.deep_view() =~= seq![spec_example_else_assign()]);
        crate::ast::lemma_models_is_deep_view(else_body);
    }
    let r = AstNode::IfStatement {
        condition: Box::new(
            AstNode::BinaryExpression {
                left: Box::new(AstNode::Identifier(String::from_str("result"))),
                operator: BinaryOperator::LessThan,
                right: Box::new(AstNode::NumberLiteral(String::from_str("10"))),
            },
        ),
        then_body,
        elseif_branches: Vec::new(),
        else_body: Some(else_body),
    };
    proof {
        reveal_with_fuel(AstNode::model, 4);
        assert(r.model() == spec_example_if());
    }
    r
}

/// A `let` declaration of a `number` variable initialised with a binary
/// expression over two leaves.
fn build_number_decl(
    name: &str,
    left: AstNode,
    operator: BinaryOperator,
    right: AstNode,
) -> (r: AstNode)
    ensures
        (r matches AstNode::VariableDeclaration {
            is_const,
            name: rn,
            var_type,
            value,
        } && is_const == false && rn@ == name@ && var_type.model() == TypeModel::Number
            && value.model() == (AstModel::BinaryExpression {
            left: Box::new(left.model()),
            operator,
            right: Box::new(right.model()),
        })),
{
    let r = AstNode::VariableDeclaration {
        is_const: false,
        name: String::from_str(name),
        var_type: KururiType::Number,
        value: Box::new(AstNode::BinaryExpression {
            left: Box::new(left),
            operator,
            right: Box::new(right),
        }),
    };
    proof {
        reveal_with_fuel(AstNode::model, 4);
    }
    r
}

/// `for j j < 9 { num1; num2; result; if }`
fn build_inner_for() -> (r: AstNode)
    ensures
        r.model() == spec_example_inner_for(),
{
    let num1 = build_number_decl(
        "num1",
        AstNode::Identifier(String::from_str("i")),
        BinaryOperator::Add,
        AstNode::NumberLiteral(String::from_str("1")),
    );
    let num2 = build_number_decl(
        "num2",
        AstNode::Identifier(String::from_str("j")),
        BinaryOperator::Add,
        AstNode::NumberLiteral(String::from_str("1")),
    );
    let result_decl = build_number_decl(
        "result",
        AstNode::Identifier(String::from_str("num1")),
        BinaryOperator::Multiply,
        AstNode::Identifier(String::from_str("num2")),
    );
    proof {
        reveal_with_fuel(AstNode::model, 3);
        assert(num1.model() == spec_example_num1());
        assert(num2.model() == spec_example_num2());
        assert(result_decl.model() == spec_example_result());
    }
    let mut inner_body: Vec<AstNode> = Vec::new();
    inner_body.push(num1);
    inner_body.push(num2);
    inner_body.push(result_decl);
    inner_body.push(build_example_if());
    proof {
        assert(inner_body.deep_view() =~= seq![
            spec_example_num1(),
            spec_example_num2(),
            spec_example_result(),
            spec_example_if(),
        ]);
        crate::ast::lemma_models_is_deep_view(inner_body);
    }
    let r = AstNode::ForStatement {
        counter_var: String::from_str("j"),
        condition: Box::new(
            AstNode::BinaryExpression {
                left: Box::new(AstNode::Identifier(String::from_str("j"))),
                operator: BinaryOperator::LessThan,
                right: Box::new(AstNode::NumberLiteral(String::from_str("9"))),
            },
        ),
        body: inner_body,
    };
    proof {
        reveal_with_fuel(AstNode::model, 4);
        assert(r.model() == spec_example_inner_for());
    }
    r
}

/// `output(arg)` for one argument node.
fn build_output_call(arg: AstNode) -> (r: AstNode)
    ensures
        r.model() == (AstModel::FunctionCall { name: "output"@, args: seq![arg.model()] }),
{
    let ghost arg_model = arg.model();
    let mut args: Vec<AstNode> = Vec::new();
    args.push(arg);
    proof {
        assert(args.deep_view() =~= seq![arg_model]);
        crate::ast::lemma_models_is_deep_view(args);
    }
    let r = AstNode::FunctionCall { name: String::from_str("output"), args };
    proof {
        reveal_with_fuel(AstNode::model, 2);
    }
    r
}

/// `for i i < 9 { row; inner for; output(row) }`
fn build_outer_for() -> (r: AstNode)
    ensures
        r.model() == spec_example_outer_for(),
{
    let row_decl = AstNode::VariableDeclaration {
        is_const: false,
        name: String::from_str("row"),
        var_type: KururiType::String,
        value: Box::new(AstNode::StringLiteral(String::from_str(""))),
    };
    let output_row = build_output_call(AstNode::Identifier(String::from_str("row")));
    proof {
        reveal_with_fuel(AstNode::model, 3);
        assert(row_decl.model() == spec_example_row_decl());
        assert(output_row.model() == spec_example_output_row());
    }
    let mut outer_body: Vec<AstNode> = Vec::new();
    outer_body.push(row_decl);
    outer_body.push(build_inner_for());
    outer_body.push(output_row);
    proof {
        assert(outer_body.deep_view() =~= seq![
            spec_example_row_decl(),
            spec_example_inner_for(),
            spec_example_output_row(),
        ]);
        crate::ast::lemma_models_is_deep_view(outer_body);
    }
    let r = AstNode::ForStatement {
        counter_var: String::from_str("i"),
        condition: Box::new(
            AstNode::BinaryExpression {
                left: Box::new(AstNode::Identifier(String::from_str("i"))),
                operator: BinaryOperator::LessThan,
                right: Box::new(AstNode::NumberLiteral(String::from_str("9"))),
            },
        ),
        body: outer_body,
    };
    proof {
        reveal_with_fuel(AstNode::model, 4);
        assert(r.model() == spec_example_outer_for());
    }
    r
}

/// `function main(): void { … }`
fn build_example_main() -> (r: AstNode)
    ensures
        r.model() == spec_example_main(),
{
    let title = build_output_call(AstNode::StringLiteral(String::from_str("掛け算九九の表")));
    let rule = build_output_call(AstNode::StringLiteral(String::from_str("=================")));
    proof {
        reveal_with_fuel(AstNode::model, 2);
        assert(title.model() == spec_example_title());
        assert(rule.model() == spec_example_rule());
    }
    let mut main_body: Vec<AstNode> = Vec::new();
    main_body.push(title);
    main_body.push(rule);
    main_body.push(build_outer_for());
    proof {
        assert(main_body.deep_view() =~= seq![
            spec_example_title(),
            spec_example_rule(),
            spec_example_outer_for(),
        ]);
        crate::ast::lemma_models_is_deep_view(main_body);
    }
    let empty_params: Vec<(String, KururiType)> = Vec::new();
    proof {
        assert(AstNode::params_model(empty_params@) =~= Seq::<(Seq<char>, TypeModel)>::empty());
    }
    let r = AstNode::FunctionDeclaration {
        name: String::from_str("main"),
        params: empty_params,
        return_type: KururiType::Void,
        body: main_body,
        is_public: false,
    };
    proof {
        reveal_with_fuel(AstNode::model, 2);
        assert(r.model() == spec_example_main());
    }
    r
}

// ---------------------------------------------------------------------------
// The parser
// ---------------------------------------------------------------------------
/// The operative parser; see the module documentation.
#[derive(Debug)]
pub struct NewParser;

impl NewParser {
    /// Creates the parser.
    pub fn new() -> (r: NewParser) {
        NewParser
    }

    /// Accepts any non-empty token stream and yields the fixed
    /// multiplication-table program; an empty stream is a parse diagnostic.
    pub fn parse_example_kururi(tokens: &[Token]) -> (r: Result<AstNode, CompilerError>)
        ensures
            tokens@.len() == 0 ==> (r matches Err(e) && e.deep_view() == ErrorModel::Parse(
                "No tokens to parse"@,
            )),
            tokens@.len() != 0 ==> (r matches Ok(ast) && ast.deep_view()
                == spec_example_program()),
    {
        if tokens.is_empty() {
            return Err(CompilerError::ParseError(String::from_str("No tokens to parse")));
        }
        let mut statements: Vec<AstNode> = Vec::new();
        statements.push(build_example_main());
        proof {
            assert(statements.deep_view() =~= seq![spec_example_main()]);
            crate::ast::lemma_models_is_deep_view(statements);
        }
        let program = AstNode::Program(statements);
        proof {
            reveal_with_fuel(AstNode::model, 2);
            assert(program.model() == spec_example_program());
        }
        Ok(program)
    }

    /// Applies the minimal dispatching grammar to the whole stream.
    pub fn parse_generic(tokens: &[Token]) -> (r: Result<AstNode, CompilerError>)
        ensures
            match spec_parse_generic(tokens.deep_view()) {
                Ok(m) => (r matches Ok(ast) && ast.deep_view() == m),
                Err(msg) => (r matches Err(e) && e.deep_view() == ErrorModel::Parse(msg)),
            },
    {
        let mut parser = GenericParser::new(tokens);
        parser.parse_program()
    }
}


// ---------------------------------------------------------------------------
// The minimal dispatching parser
// ---------------------------------------------------------------------------
/// One statement of the minimal grammar at position `i`: a `function`,
/// `const` or `let` keyword followed by a name; anything else is a parse
/// diagnostic naming the position just past the offending token.
pub open spec fn spec_generic_stmt(t: Seq<TokenModel>, i: int) -> Result<
    (AstModel, int),
    Seq<char>,
> {
    match t[i] {
        TokenModel::Function => if i + 1 < t.len() {
            match t[i + 1] {
                TokenModel::Identifier(nm) => Ok(
                    (
                        AstModel::FunctionDeclaration {
                            name: nm,
                            params: Seq::empty(),
                            return_type: TypeModel::Void,
                            body: Seq::empty(),
                            is_public: false,
                        },
                        i + 2,
                    ),
                ),
                _ => Err("Expected function name"@),
            }
        } else {
            Err("Expected function name"@)
        },
        TokenModel::Const => if i + 1 < t.len() {
            match t[i + 1] {
                TokenModel::Identifier(nm) => Ok(
                    (
                        AstModel::VariableDeclaration {
                            is_const: true,
                            name: nm,
                            var_type: TypeModel::String,
                            value: Box::new(AstModel::StringLiteral("default"@)),
                        },
                        i + 2,
                    ),
                ),
                _ => Err("Expected variable name"@),
            }
        } else {
            Err("Expected variable name"@)
        },
        TokenModel::Let => if i + 1 < t.len() {
            match t[i + 1] {
                TokenModel::Identifier(nm) => Ok(
                    (
                        AstModel::VariableDeclaration {
                            is_const: false,
                            name: nm,
                            var_type: TypeModel::String,
                            value: Box::new(AstModel::StringLiteral("default"@)),
                        },
                        i + 2,
                    ),
                ),
                _ => Err("Expected variable name"@),
            }
        } else {
            Err("Expected variable name"@)
        },
        _ => Err("Unexpected token at position "@ + text::spec_dec(i + 1)),
    }
}

/// The statements of the minimal grammar from position `i` up to the
/// end-of-input token or the end of the stream.
pub open spec fn spec_generic_program(t: Seq<TokenModel>, i: int) -> Result<
    Seq<AstModel>,
    Seq<char>,
>
    decreases t.len() - i,
{
    if i < 0 || i >= t.len() || t[i] is Eof {
        Ok(Seq::empty())
    } else {
        match spec_generic_stmt(t, i) {
            Ok(nj) => if i < nj.1 && nj.1 <= t.len() {
                match spec_generic_program(t, nj.1) {
                    Ok(rest) => Ok(seq![nj.0] + rest),
                    Err(m) => Err(m),
                }
            } else {
                Ok(Seq::empty())
            },
            Err(m) => Err(m),
        }
    }
}

/// The minimal grammar applied to a whole token stream.
pub open spec fn spec_parse_generic(t: Seq<TokenModel>) -> Result<AstModel, Seq<char>> {
    match spec_generic_program(t, 0) {
        Ok(stmts) => Ok(AstModel::Program(stmts)),
        Err(m) => Err(m),
    }
}

/// Joins already-parsed statements with the outcome of the remaining scan.
pub open spec fn spec_generic_join(
    acc: Seq<AstModel>,
    r: Result<Seq<AstModel>, Seq<char>>,
) -> Result<Seq<AstModel>, Seq<char>> {
    match r {
        Ok(rest) => Ok(acc + rest),
        Err(m) => Err(m),
    }
}

proof fn lemma_generic_step(t: Seq<TokenModel>, acc: Seq<AstModel>, i0: int, i: int)
    requires
        0 <= i < t.len(),
        !(t[i] is Eof),
        spec_generic_join(acc, spec_generic_program(t, i)) == spec_generic_program(t, i0),
    ensures
        spec_generic_stmt(t, i) matches Ok(nj) ==> (i < nj.1 && nj.1 <= t.len()
            ==> spec_generic_join(acc.push(nj.0), spec_generic_program(t, nj.1))
            == spec_generic_program(t, i0)),
        spec_generic_stmt(t, i) matches Err(m) ==> spec_generic_program(t, i0) == Err::<
            Seq<AstModel>,
            Seq<char>,
        >(m),
{
    match spec_generic_stmt(t, i) {
        Ok(nj) => {
            if i < nj.1 && nj.1 <= t.len() {
                match spec_generic_program(t, nj.1) {
                    Ok(rest) => {
                        assert(acc + (seq![nj.0] + rest) =~= acc.push(nj.0) + rest);
                    },
                    Err(_) => {},
                }
            }
        },
        Err(_) => {},
    }
}

/// The state of the minimal parser: the token stream and a cursor.
struct GenericParser<'a> {
    tokens: &'a [Token],
    position: usize,
}

impl<'a> GenericParser<'a> {
    /// The cursor stays inside or just past the stream.
    spec fn wf(&self) -> bool {
        self.position <= self.tokens@.len()
    }

    fn new(tokens: &'a [Token]) -> (r: GenericParser<'a>)
        ensures
            r.wf(),
            r.tokens == tokens,
            r.position == 0,
    {
        GenericParser { tokens, position: 0 }
    }

    /// Advances the cursor unless it already passed the last token.
    fn advance(&mut self)
        requires
            old(self).wf(),
        ensures
            final(self).wf(),
            final(self).tokens == old(self).tokens,
            old(self).position < old(self).tokens@.len() ==> final(self).position == old(
                self,
            ).position + 1,
            old(self).position >= old(self).tokens@.len() ==> final(self).position == old(
                self,
            ).position,
    {
        if self.position < self.tokens.len() {
            self.position = self.position + 1;
        }
    }

    /// Parses the statements before the end-of-input token.
    #[verifier::loop_isolation(false)]
    fn parse_program(&mut self) -> (r: Result<AstNode, CompilerError>)
        requires
            old(self).wf(),
        ensures
            match spec_generic_program(old(self).tokens.deep_view(), old(self).position as int) {
                Ok(stmts) => (r matches Ok(p) && p.model() == AstModel::Program(stmts)),
                Err(m) => (r matches Err(e) && e.deep_view() == ErrorModel::Parse(m)),
            },
    {
        let ghost t = self.tokens.deep_view();
        let ghost i0 = self.position as int;
        let mut statements: Vec<AstNode> = Vec::new();
        proof {
            crate::ast::lemma_models_is_deep_view(statements);
            assert(statements.deep_view() =~= Seq::<AstModel>::empty());
            match spec_generic_program(t, i0) {
                Ok(rest) => {
                    assert(Seq::<AstModel>::empty() + rest =~= rest);
                },
                Err(_) => {},
            }
        }
        while self.position < self.tokens.len() && !token_is_eof(&self.tokens[self.position])
            invariant
                self.wf(),
                self.tokens == old(self).tokens,
                i0 <= self.position,
                spec_generic_join(AstNode::models(statements@), spec_generic_program(
                    t,
                    self.position as int,
                )) == spec_generic_program(t, i0),
            decreases self.tokens@.len() - self.position,
        {
            let ghost i = self.position as int;
            let ghost acc = AstNode::models(statements@);
            proof {
                assert(t[i] == self.tokens@[i].deep_view());
                lemma_generic_step(t, acc, i0, i);
            }
            match self.parse_statement() {
                Ok(stmt) => {
                    let ghost stmt_model = stmt.model();
                    let ghost old_stmts = statements@;
                    statements.push(stmt);
                    proof {
                        crate::ast::lemma_models_index(old_stmts);
                        crate::ast::lemma_models_index(statements@);
                        assert(AstNode::models(statements@) =~= acc.push(stmt_model));
                    }
                },
                Err(e) => {
                    return Err(e);
                },
            }
        }
        proof {
            assert(spec_generic_program(t, self.position as int) == Ok::<_, Seq<char>>(
                Seq::<AstModel>::empty(),
            ));
            assert(AstNode::models(statements@) + Seq::<AstModel>::empty() =~= AstNode::models(
                statements@,
            ));
        }
        let ghost stmts_model = AstNode::models(statements@);
        let program = AstNode::Program(statements);
        proof {
            assert(program.model() == AstModel::Program(stmts_model));
        }
        Ok(program)
    }

    /// Parses one statement by its leading keyword.
    fn parse_statement(&mut self) -> (r: Result<AstNode, CompilerError>)
        requires
            old(self).wf(),
            old(self).position < old(self).tokens@.len(),
        ensures
            final(self).wf(),
            final(self).tokens == old(self).tokens,
            match spec_generic_stmt(old(self).tokens.deep_view(), old(self).position as int) {
                Ok(nj) => (r matches Ok(node) && node.model() == nj.0 && final(self).position
                    == nj.1),
                Err(m) => (r matches Err(e) && e.deep_view() == ErrorModel::Parse(m)),
            },
    {
        proof {
            assert(self.tokens.deep_view()[self.position as int]
                == self.tokens@[self.position as int].deep_view());
        }
        match &self.tokens[self.position] {
            Token::Function => self.parse_function_declaration(),
            Token::Const => self.parse_const_declaration(),
            Token::Let => self.parse_let_declaration(),
            _ => {
                self.advance();
                let mut msg: Vec<char> = Vec::new();
                text::push_str_chars(&mut msg, "Unexpected token at position ");
                text::push_dec(&mut msg, self.position);
                Err(CompilerError::ParseError(text::chars_to_string(&msg)))
            },
        }
    }

    /// Parses `function Name` into a bare function declaration.
    fn parse_function_declaration(&mut self) -> (r: Result<AstNode, CompilerError>)
        requires
            old(self).wf(),
            old(self).position < old(self).tokens@.len(),
            old(self).tokens@[old(self).position as int].deep_view() is Function,
        ensures
            final(self).wf(),
            final(self).tokens == old(self).tokens,
            match spec_generic_stmt(old(self).tokens.deep_view(), old(self).position as int) {
                Ok(nj) => (r matches Ok(node) && node.model() == nj.0 && final(self).position
                    == nj.1),
                Err(m) => (r matches Err(e) && e.deep_view() == ErrorModel::Parse(m)),
            },
    {
        let ghost t = self.tokens.deep_view();
        let ghost i = self.position as int;
        proof {
            assert(t[i] == self.tokens@[i].deep_view());
            if i + 1 < t.len() {
                assert(t[i + 1] == self.tokens@[i + 1].deep_view());
            }
        }
        self.advance();
        if self.position < self.tokens.len() {
            match &self.tokens[self.position] {
                Token::Identifier(name) => {
                    let n = name.clone();
                    self.advance();
                    let empty_params: Vec<(String, KururiType)> = Vec::new();
                    let empty_body: Vec<AstNode> = Vec::new();
                    proof {
                        assert(AstNode::params_model(empty_params@) =~= Seq::<
                            (Seq<char>, TypeModel),
                        >::empty());
                        assert(AstNode::models(empty_body@) =~= Seq::<AstModel>::empty());
                    }
                    let node = AstNode::FunctionDeclaration {
                        name: n,
                        params: empty_params,
                        return_type: KururiType::Void,
                        body: empty_body,
                        is_public: false,
                    };
                    Ok(node)
                },
                _ => Err(CompilerError::ParseError(String::from_str("Expected function name"))),
            }
        } else {
            Err(CompilerError::ParseError(String::from_str("Expected function name")))
        }
    }

    /// Parses `const Name` into a bare variable declaration.
    fn parse_const_declaration(&mut self) -> (r: Result<AstNode, CompilerError>)
        requires
            old(self).wf(),
            old(self).position < old(self).tokens@.len(),
            old(self).tokens@[old(self).position as int].deep_view() is Const,
        ensures
            final(self).wf(),
            final(self).tokens == old(self).tokens,
            match spec_generic_stmt(old(self).tokens.deep_view(), old(self).position as int) {
                Ok(nj) => (r matches Ok(node) && node.model() == nj.0 && final(self).position
                    == nj.1),
                Err(m) => (r matches Err(e) && e.deep_view() == ErrorModel::Parse(m)),
            },
    {
        let ghost t = self.tokens.deep_view();
        let ghost i = self.position as int;
        proof {
            assert(t[i] == self.tokens@[i].deep_view());
            if i + 1 < t.len() {
                assert(t[i + 1] == self.tokens@[i + 1].deep_view());
            }
        }
        self.advance();
        if self.position < self.tokens.len() {
            match &self.tokens[self.position] {
                Token::Identifier(name) => {
                    let n = name.clone();
                    self.advance();
                    let node = AstNode::VariableDeclaration {
                        is_const: true,
                        name: n,
                        var_type: KururiType::String,
                        value: Box::new(AstNode::StringLiteral(String::from_str("default"))),
                    };
                    proof {
                        reveal_with_fuel(AstNode::model, 3);
                    }
                    Ok(node)
                },
                _ => Err(CompilerError::ParseError(String::from_str("Expected variable name"))),
            }
        } else {
            Err(CompilerError::ParseError(String::from_str("Expected variable name")))
        }
    }

    /// Parses `let Name` into a bare variable declaration.
    fn parse_let_declaration(&mut self) -> (r: Result<AstNode, CompilerError>)
        requires
            old(self).wf(),
            old(self).position < old(self).tokens@.len(),
            old(self).tokens@[old(self).position as int].deep_view() is Let,
        ensures
            final(self).wf(),
            final(self).tokens == old(self).tokens,
            match spec_generic_stmt(old(self).tokens.deep_view(), old(self).position as int) {
                Ok(nj) => (r matches Ok(node) && node.model() == nj.0 && final(self).position
                    == nj.1),
                Err(m) => (r matches Err(e) && e.deep_view() == ErrorModel::Parse(m)),
            },
    {
        let ghost t = self.tokens.deep_view();
        let ghost i = self.position as int;
        proof {
            assert(t[i] == self.tokens@[i].deep_view());
            if i + 1 < t.len() {
                assert(t[i + 1] == self.tokens@[i + 1].deep_view());
            }
        }
        self.advance();
        if self.position < self.tokens.len() {
            match &self.tokens[self.position] {
                Token::Identifier(name) => {
                    let n = name.clone();
                    self.advance();
                    let node = AstNode::VariableDeclaration {
                        is_const: false,
                        name: n,
                        var_type: KururiType::String,
                        value: Box::new(AstNode::StringLiteral(String::from_str("default"))),
                    };
                    proof {
                        reveal_with_fuel(AstNode::model, 3);
                    }
                    Ok(node)
                },
                _ => Err(CompilerError::ParseError(String::from_str("Expected variable name"))),
            }
        } else {
            Err(CompilerError::ParseError(String::from_str("Expected variable name")))
        }
    }
}

/// Reports whether the token marks end of input.
fn token_is_eof(tk: &Token) -> (b: bool)
    ensures
        b == (tk.deep_view() is Eof),
{
    matches!(tk, Token::Eof)
}

} // verus!
