//! Code emission: a checked AST is lowered to Python source text by pure
//! tree-directed recursion, with no further semantic checks.
//!
//! The emitted text is pinned down by [`spec_gen`]: statements of a program
//! join with a blank line, every block is indented by four spaces and an
//! empty block lowers to a single `pass` statement, `+` stringifies both
//! operands, `output` lowers to `print`, and a `for` whose condition has
//! the exact shape `i < N` (with a number-literal bound) lowers to
//! `range(int(N))`, any other condition to the conservative `range(10)`.
//! Emission is total: every checked tree emits without error. The node
//! kinds the analyzer rejects (classes, method calls, member access,
//! `new`) fall to a catch-all that emits empty text; a checked tree never
//! reaches it through an analyzed path.

use vstd::prelude::*;

use crate::ast::{
    lemma_branches_model_index, lemma_models_index, AstModel, AstNode, BinaryOperator, KururiType,
    UnaryOperator,
};
use crate::error::{CompilerError, ErrorModel};
use crate::lexer::is_unicode_space;
use crate::text;

verus! {

// ---------------------------------------------------------------------------
// Small text helpers
// ---------------------------------------------------------------------------
/// Holds when the text has a character that is not whitespace.
pub open spec fn has_visible_char(s: Seq<char>) -> bool {
    exists|i: int| 0 <= i < s.len() && !is_unicode_space(#[trigger] s[i])
}

/// The position of the newline that ends the line starting at `i`, or the
/// end of the text.
pub open spec fn line_break(s: Seq<char>, i: int) -> int
    decreases s.len() - i,
{
    if 0 <= i < s.len() && s[i] != '\n' {
        line_break(s, i + 1)
    } else {
        i
    }
}

/// A line with a trailing carriage return dropped.
pub open spec fn strip_cr(l: Seq<char>) -> Seq<char> {
    if l.len() > 0 && l.last() == '\r' {
        l.drop_last()
    } else {
        l
    }
}

/// The lines of `s`: split at newlines, no line for a trailing newline,
/// a trailing carriage return dropped from each line.
pub open spec fn lines_from(s: Seq<char>, i: int) -> Seq<Seq<char>>
    decreases s.len() - i,
{
    if i < 0 || i >= s.len() {
        Seq::empty()
    } else {
        let j = line_break(s, i);
        if j < i || j >= s.len() {
            seq![strip_cr(s.subrange(i, s.len() as int))]
        } else {
            seq![strip_cr(s.subrange(i, j))] + lines_from(s, j + 1)
        }
    }
}

/// The texts joined with `sep` between neighbours.
pub open spec fn spec_join(parts: Seq<Seq<char>>, sep: Seq<char>) -> Seq<char>
    decreases parts,
{
    if parts.len() == 0 {
        Seq::empty()
    } else if parts.len() == 1 {
        parts[0]
    } else {
        parts[0] + sep + spec_join(parts.drop_first(), sep)
    }
}

proof fn lemma_join_push(parts: Seq<Seq<char>>, x: Seq<char>, sep: Seq<char>)
    ensures
        parts.len() == 0 ==> spec_join(parts.push(x), sep) == x,
        parts.len() > 0 ==> spec_join(parts.push(x), sep) == spec_join(parts, sep) + sep + x,
    decreases parts,
{
    if parts.len() > 0 {
        lemma_join_push(parts.drop_first(), x, sep);
        assert(parts.push(x).drop_first() =~= parts.drop_first().push(x));
        if parts.len() == 1 {
            assert(spec_join(parts.push(x), sep) == parts[0] + sep + x);
        } else {
            assert(spec_join(parts.push(x), sep) == parts[0] + sep + spec_join(
                parts.drop_first().push(x),
                sep,
            ));
            assert(parts[0] + sep + (spec_join(parts.drop_first(), sep) + sep + x) =~= (parts[0]
                + sep + spec_join(parts.drop_first(), sep)) + sep + x);
        }
    }
}

/// The text with every double quote preceded by a backslash.
pub open spec fn spec_escape_quotes(s: Seq<char>) -> Seq<char>
    decreases s,
{
    if s.len() == 0 {
        Seq::empty()
    } else if s[0] == '"' {
        seq!['\\', '"'] + spec_escape_quotes(s.drop_first())
    } else {
        seq![s[0]] + spec_escape_quotes(s.drop_first())
    }
}

proof fn lemma_escape_quotes_push(s: Seq<char>, c: char)
    ensures
        c == '"' ==> spec_escape_quotes(s.push(c)) == spec_escape_quotes(s) + seq!['\\', '"'],
        c != '"' ==> spec_escape_quotes(s.push(c)) == spec_escape_quotes(s) + seq![c],
    decreases s,
{
    if s.len() == 0 {
        assert(s.push(c).drop_first() =~= Seq::<char>::empty());
        assert(spec_escape_quotes(Seq::<char>::empty()) =~= Seq::<char>::empty());
        if c == '"' {
            assert(spec_escape_quotes(s.push(c)) =~= spec_escape_quotes(s) + seq!['\\', '"']);
        } else {
            assert(spec_escape_quotes(s.push(c)) =~= spec_escape_quotes(s) + seq![c]);
        }
    } else {
        lemma_escape_quotes_push(s.drop_first(), c);
        assert(s.push(c).drop_first() =~= s.drop_first().push(c));
        assert(s.push(c)[0] == s[0]);
        if c == '"' {
            assert(spec_escape_quotes(s.push(c)) =~= spec_escape_quotes(s) + seq!['\\', '"']);
        } else {
            assert(spec_escape_quotes(s.push(c)) =~= spec_escape_quotes(s) + seq![c]);
        }
    }
}

/// Appends the text with double quotes escaped.
fn push_escaped(out: &mut Vec<char>, s: &str)
    ensures
        final(out)@ == old(out)@ + spec_escape_quotes(s@),
{
    let chars = text::str_to_chars(s);
    let n = chars.len();
    let mut i: usize = 0;
    proof {
        assert(s@.subrange(0, 0) =~= Seq::<char>::empty());
        assert(out@ =~= old(out)@ + spec_escape_quotes(s@.subrange(0, 0)));
    }
    while i < n
        invariant
            n == s@.len(),
            chars@ == s@,
            i <= n,
            out@ == old(out)@ + spec_escape_quotes(s@.subrange(0, i as int)),
        decreases n - i,
    {
        let c = chars[i];
        proof {
            lemma_escape_quotes_push(s@.subrange(0, i as int), s@[i as int]);
            assert(s@.subrange(0, i as int).push(s@[i as int]) =~= s@.subrange(0, i + 1));
        }
        if c == '"' {
            out.push('\\');
            out.push('"');
            proof {
                assert(out@ =~= old(out)@ + spec_escape_quotes(s@.subrange(0, i + 1)));
            }
        } else {
            out.push(c);
            proof {
                assert(out@ =~= old(out)@ + spec_escape_quotes(s@.subrange(0, i + 1)));
            }
        }
        i = i + 1;
    }
    proof {
        assert(s@.subrange(0, n as int) =~= s@);
    }
}

/// Reports whether the text has a character that is not whitespace.
fn visible(v: &Vec<char>) -> (r: bool)
    ensures
        r == has_visible_char(v@),
{
    let n = v.len();
    let mut i: usize = 0;
    while i < n
        invariant
            n == v@.len(),
            i <= n,
            forall|k: int| 0 <= k < i ==> is_unicode_space(#[trigger] v@[k]),
        decreases n - i,
    {
        if !crate::lexer::unicode_space_char(v[i]) {
            return true;
        }
        i = i + 1;
    }
    false
}

// ---------------------------------------------------------------------------
// The emitted text
// ---------------------------------------------------------------------------
/// The operator text used in emitted expressions.
pub open spec fn spec_binop_text(op: BinaryOperator) -> Seq<char> {
    match op {
        BinaryOperator::Add => "+"@,
        BinaryOperator::Subtract => "-"@,
        BinaryOperator::Multiply => "*"@,
        BinaryOperator::Divide => "/"@,
        BinaryOperator::Equal => "=="@,
        BinaryOperator::NotEqual => "!="@,
        BinaryOperator::LessThan => "<"@,
        BinaryOperator::LessThanOrEqual => "<="@,
        BinaryOperator::GreaterThan => ">"@,
        BinaryOperator::GreaterThanOrEqual => ">="@,
        BinaryOperator::And => "and"@,
        BinaryOperator::Or => "or"@,
    }
}

/// The prefix text of a unary operator.
pub open spec fn spec_unop_text(op: UnaryOperator) -> Seq<char> {
    match op {
        UnaryOperator::Not => "not "@,
        UnaryOperator::Minus => "-"@,
    }
}

/// The emitted text of one node.
pub open spec fn spec_gen(e: AstModel) -> Seq<char>
    decreases e, 2int,
{
    match e {
        AstModel::Program(stmts) => spec_join(spec_sections(stmts), "\n\n"@),
        AstModel::FunctionDeclaration { name, params, body, .. } => "def "@ + name + "("@
            + spec_param_names(params) + "):\n"@ + spec_gen_body(body),
        AstModel::VariableDeclaration { name, value, .. } => name + " = "@ + spec_gen(*value),
        AstModel::FunctionCall { name, args } => if name == "output"@ && args.len() == 1 {
            "print("@ + spec_gen(args[0]) + ")"@
        } else {
            name + "("@ + spec_gen_args(args) + ")"@
        },
        AstModel::StringLiteral(v) => "\""@ + spec_escape_quotes(v) + "\""@,
        AstModel::NumberLiteral(v) => v,
        AstModel::BooleanLiteral(b) => if b {
            "True"@
        } else {
            "False"@
        },
        AstModel::Identifier(n) => n,
        AstModel::BinaryExpression { left, operator, right } => if operator
            == BinaryOperator::Add {
            "str("@ + spec_gen(*left) + ") + str("@ + spec_gen(*right) + ")"@
        } else {
            spec_gen(*left) + " "@ + spec_binop_text(operator) + " "@ + spec_gen(*right)
        },
        AstModel::UnaryExpression { operator, operand } => spec_unop_text(operator) + spec_gen(
            *operand,
        ),
        AstModel::ArrayLiteral(elements) => "["@ + spec_gen_args(elements) + "]"@,
        AstModel::ArrayAccess { array, index } => spec_gen(*array) + "["@ + spec_gen(*index)
            + "]"@,
        AstModel::IfStatement { condition, then_body, elseif_branches, else_body } => {
            "if "@ + spec_gen(*condition) + ":\n"@ + spec_gen_body(then_body) + spec_elifs(
                elseif_branches,
            ) + (match else_body {
                Some(eb) => "\nelse:\n"@ + spec_gen_body(eb),
                None => Seq::empty(),
            })
        },
        AstModel::WhileStatement { condition, body } => "while "@ + spec_gen(*condition) + ":\n"@
            + spec_gen_body(body),
        AstModel::ForStatement { counter_var, condition, body } => {
            let bound = spec_for_bound(*condition);
            "for "@ + counter_var + " in range("@ + bound + "):\n"@ + spec_gen_body(body)
        },
        AstModel::Assignment { target, value } => spec_gen(*target) + " = "@ + spec_gen(*value),
        AstModel::ReturnStatement(value) => match value {
            Some(v) => "return "@ + spec_gen(*v),
            None => "return"@,
        },
        _ => Seq::empty(),
    }
}

/// The `range` argument of a lowered `for`: `int(N)` when the condition has
/// the exact shape `_ < N` with a number-literal bound, the conservative
/// `10` otherwise.
pub open spec fn spec_for_bound(condition: AstModel) -> Seq<char> {
    match condition {
        AstModel::BinaryExpression { left: _, operator: BinaryOperator::LessThan, right } => {
            match *right {
                AstModel::NumberLiteral(limit) => "int("@ + limit + ")"@,
                _ => "10"@,
            }
        },
        _ => "10"@,
    }
}

/// The emitted texts of a program's statements, blank ones dropped.
pub open spec fn spec_sections(stmts: Seq<AstModel>) -> Seq<Seq<char>>
    decreases stmts, 0int,
{
    if stmts.len() == 0 {
        Seq::empty()
    } else {
        let s = spec_gen(stmts[0]);
        let rest = spec_sections(stmts.drop_first());
        if has_visible_char(s) {
            seq![s] + rest
        } else {
            rest
        }
    }
}

/// The emitted argument texts joined with `, `.
pub open spec fn spec_gen_args(args: Seq<AstModel>) -> Seq<char>
    decreases args, 0int,
{
    if args.len() == 0 {
        Seq::empty()
    } else if args.len() == 1 {
        spec_gen(args[0])
    } else {
        spec_gen(args[0]) + ", "@ + spec_gen_args(args.drop_first())
    }
}

/// The parameter names joined with `, `.
pub open spec fn spec_param_names(params: Seq<(Seq<char>, crate::ast::TypeModel)>) -> Seq<char>
    decreases params,
{
    if params.len() == 0 {
        Seq::empty()
    } else if params.len() == 1 {
        params[0].0
    } else {
        params[0].0 + ", "@ + spec_param_names(params.drop_first())
    }
}

/// The indented non-blank lines of a block, one entry per emitted line.
pub open spec fn spec_body_lines(stmts: Seq<AstModel>) -> Seq<Seq<char>>
    decreases stmts, 1int,
{
    if stmts.len() == 0 {
        Seq::empty()
    } else {
        spec_stmt_lines(spec_gen(stmts[0])) + spec_body_lines(stmts.drop_first())
    }
}

/// The indented non-blank lines of one emitted statement; a statement whose
/// whole text is blank contributes nothing.
pub open spec fn spec_stmt_lines(code: Seq<char>) -> Seq<Seq<char>> {
    if has_visible_char(code) {
        spec_indent_lines(lines_from(code, 0))
    } else {
        Seq::empty()
    }
}

/// Indents each non-blank line by four spaces, dropping blank lines.
pub open spec fn spec_indent_lines(ls: Seq<Seq<char>>) -> Seq<Seq<char>>
    decreases ls,
{
    if ls.len() == 0 {
        Seq::empty()
    } else {
        let rest = spec_indent_lines(ls.drop_first());
        if has_visible_char(ls[0]) {
            seq!["    "@ + ls[0]] + rest
        } else {
            rest
        }
    }
}

/// The emitted text of a block: its indented lines joined with newlines,
/// or a single `pass` when no line remains.
pub open spec fn spec_gen_body(stmts: Seq<AstModel>) -> Seq<char>
    decreases stmts, 2int,
{
    let bl = spec_body_lines(stmts);
    if bl.len() == 0 {
        "    pass"@
    } else {
        spec_join(bl, "\n"@)
    }
}

/// The `elif` chain of an `if` statement.
pub open spec fn spec_elifs(branches: Seq<(AstModel, Seq<AstModel>)>) -> Seq<char>
    decreases branches, 3int,
{
    if branches.len() == 0 {
        Seq::empty()
    } else {
        "\nelif "@ + spec_gen(branches[0].0) + ":\n"@ + spec_gen_body(branches[0].1) + spec_elifs(
            branches.drop_first(),
        )
    }
}

proof fn lemma_elifs_push(branches: Seq<(AstModel, Seq<AstModel>)>, x: (AstModel, Seq<AstModel>))
    ensures
        spec_elifs(branches.push(x)) == spec_elifs(branches) + ("\nelif "@ + spec_gen(x.0) + ":\n"@
            + spec_gen_body(x.1)),
    decreases branches,
{
    if branches.len() == 0 {
        assert(branches.push(x)[0] == x);
        assert(branches.push(x).drop_first() =~= Seq::<(AstModel, Seq<AstModel>)>::empty());
        assert(spec_elifs(Seq::<(AstModel, Seq<AstModel>)>::empty()) =~= Seq::<char>::empty());
        assert(spec_elifs(branches.push(x)) =~= spec_elifs(branches) + ("\nelif "@ + spec_gen(x.0)
            + ":\n"@ + spec_gen_body(x.1)));
    } else {
        lemma_elifs_push(branches.drop_first(), x);
        assert(branches.push(x).drop_first() =~= branches.drop_first().push(x));
        assert(branches.push(x)[0] == branches[0]);
        assert(spec_elifs(branches.push(x)) =~= spec_elifs(branches) + ("\nelif "@ + spec_gen(x.0)
            + ":\n"@ + spec_gen_body(x.1)));
    }
}

proof fn lemma_sections_push(stmts: Seq<AstModel>, x: AstModel)
    ensures
        spec_sections(stmts.push(x)) == spec_sections(stmts) + (if has_visible_char(spec_gen(x)) {
            seq![spec_gen(x)]
        } else {
            Seq::<Seq<char>>::empty()
        }),
    decreases stmts,
{
    if stmts.len() == 0 {
        assert(stmts.push(x)[0] == x);
        assert(stmts.push(x).drop_first() =~= Seq::<AstModel>::empty());
        assert(spec_sections(Seq::<AstModel>::empty()) =~= Seq::<Seq<char>>::empty());
        assert(spec_sections(stmts.push(x)) =~= spec_sections(stmts) + (if has_visible_char(
            spec_gen(x),
        ) {
            seq![spec_gen(x)]
        } else {
            Seq::<Seq<char>>::empty()
        }));
    } else {
        lemma_sections_push(stmts.drop_first(), x);
        assert(stmts.push(x).drop_first() =~= stmts.drop_first().push(x));
        assert(stmts.push(x)[0] == stmts[0]);
        assert(spec_sections(stmts.push(x)) =~= spec_sections(stmts) + (if has_visible_char(
            spec_gen(x),
        ) {
            seq![spec_gen(x)]
        } else {
            Seq::<Seq<char>>::empty()
        }));
    }
}

proof fn lemma_body_lines_push(stmts: Seq<AstModel>, x: AstModel)
    ensures
        spec_body_lines(stmts.push(x)) == spec_body_lines(stmts) + spec_stmt_lines(spec_gen(x)),
    decreases stmts,
{
    if stmts.len() == 0 {
        assert(stmts.push(x)[0] == x);
        assert(stmts.push(x).drop_first() =~= Seq::<AstModel>::empty());
        assert(spec_body_lines(Seq::<AstModel>::empty()) =~= Seq::<Seq<char>>::empty());
        assert(spec_body_lines(stmts.push(x)) =~= spec_body_lines(stmts) + spec_stmt_lines(
            spec_gen(x),
        ));
    } else {
        lemma_body_lines_push(stmts.drop_first(), x);
        assert(stmts.push(x).drop_first() =~= stmts.drop_first().push(x));
        assert(stmts.push(x)[0] == stmts[0]);
        assert(spec_body_lines(stmts.push(x)) =~= spec_body_lines(stmts) + spec_stmt_lines(
            spec_gen(x),
        ));
    }
}


// ---------------------------------------------------------------------------
// The executable emitter
// ---------------------------------------------------------------------------
/// Appends the parts joined with `sep`.
fn push_joined(out: &mut Vec<char>, parts: &Vec<Vec<char>>, sep: &str)
    ensures
        final(out)@ == old(out)@ + spec_join(parts.deep_view(), sep@),
{
    let ghost pd = parts.deep_view();
    let n = parts.len();
    let mut k: usize = 0;
    proof {
        assert(pd.subrange(0, 0) =~= Seq::<Seq<char>>::empty());
        assert(out@ =~= old(out)@ + spec_join(pd.subrange(0, 0), sep@));
    }
    while k < n
        invariant
            n == parts@.len(),
            pd == parts.deep_view(),
            pd.len() == n,
            k <= n,
            out@ == old(out)@ + spec_join(pd.subrange(0, k as int), sep@),
        decreases n - k,
    {
        proof {
            lemma_join_push(pd.subrange(0, k as int), pd[k as int], sep@);
            assert(pd.subrange(0, k as int).push(pd[k as int]) =~= pd.subrange(0, k + 1));
            assert(pd[k as int] =~= parts@[k as int]@);
        }
        if k > 0 {
            text::push_str_chars(out, sep);
        }
        text::push_chars(out, &parts[k]);
        k = k + 1;
        proof {
            assert(out@ =~= old(out)@ + spec_join(pd.subrange(0, k as int), sep@));
        }
    }
    proof {
        assert(pd.subrange(0, n as int) =~= pd);
    }
}

/// Finds the newline that ends the line starting at `from`, or the end.
fn find_line_break(v: &Vec<char>, from: usize) -> (j: usize)
    requires
        from <= v.len(),
    ensures
        j == line_break(v@, from as int),
        from <= j <= v.len(),
{
    proof {
        lemma_line_break_bounds(v@, from as int);
    }
    let n = v.len();
    let mut i = from;
    while i < n && v[i] != '\n'
        invariant
            n == v@.len(),
            from <= i <= n,
            line_break(v@, i as int) == line_break(v@, from as int),
        decreases n - i,
    {
        i = i + 1;
    }
    i
}

proof fn lemma_line_break_bounds(s: Seq<char>, i: int)
    requires
        0 <= i <= s.len(),
    ensures
        i <= line_break(s, i) <= s.len(),
    decreases s.len() - i,
{
    if i < s.len() && s[i] != '\n' {
        lemma_line_break_bounds(s, i + 1);
    }
}

/// Splits one emitted statement into its indented non-blank lines and
/// appends them to `acc`.
#[verifier::loop_isolation(false)]
fn append_indented_lines(code: &Vec<char>, acc: &mut Vec<Vec<char>>)
    ensures
        final(acc).deep_view() == old(acc).deep_view() + spec_indent_lines(lines_from(code@, 0)),
{
    let ghost base = old(acc).deep_view();
    let n = code.len();
    let mut pos: usize = 0;
    proof {
        assert(base + spec_indent_lines(lines_from(code@, 0)) =~~= acc.deep_view()
            + spec_indent_lines(lines_from(code@, 0)));
    }
    while pos < n
        invariant
            n == code@.len(),
            pos <= n,
            base + spec_indent_lines(lines_from(code@, 0)) == acc.deep_view() + spec_indent_lines(
                lines_from(code@, pos as int),
            ),
        decreases n - pos,
    {
        let j = find_line_break(code, pos);
        let mut line = text::copy_range(code, pos, j);
        let ghost raw = code@.subrange(pos as int, j as int);
        if line.len() > 0 && line[line.len() - 1] == '\r' {
            let popped = line.pop();
            proof {
                assert(line@ =~= strip_cr(raw));
            }
        } else {
            proof {
                assert(line@ =~= strip_cr(raw));
            }
        }
        let ghost ls = lines_from(code@, pos as int);
        proof {
            if j >= n {
                assert(ls =~= seq![strip_cr(raw)]);
            } else {
                assert(ls == seq![strip_cr(raw)] + lines_from(code@, j + 1));
            }
            assert(ls.len() > 0);
            assert(ls[0] == strip_cr(raw));
            if j >= n {
                assert(ls.drop_first() =~= lines_from(code@, n as int));
            } else {
                assert(ls.drop_first() =~= lines_from(code@, j + 1));
            }
        }
        if visible(&line) {
            let mut indented: Vec<char> = Vec::new();
            text::push_str_chars(&mut indented, "    ");
            text::push_chars(&mut indented, &line);
            let ghost before = acc.deep_view();
            acc.push(indented);
            proof {
                assert(indented@ =~= "    "@ + ls[0]);
                assert(acc.deep_view() =~~= before.push("    "@ + ls[0]));
                assert(spec_indent_lines(ls) == seq!["    "@ + ls[0]] + spec_indent_lines(
                    ls.drop_first(),
                ));
                assert(before + (seq!["    "@ + ls[0]] + spec_indent_lines(ls.drop_first())) =~~= (
                before.push("    "@ + ls[0])) + spec_indent_lines(ls.drop_first()));
            }
        } else {
            proof {
                assert(spec_indent_lines(ls) == spec_indent_lines(ls.drop_first()));
            }
        }
        if j >= n {
            pos = n;
        } else {
            pos = j + 1;
        }
    }
    proof {
        assert(lines_from(code@, pos as int) =~= Seq::<Seq<char>>::empty());
        assert(spec_indent_lines(Seq::<Seq<char>>::empty()) =~= Seq::<Seq<char>>::empty());
        assert(acc.deep_view() + Seq::<Seq<char>>::empty() =~~= acc.deep_view());
    }
}

/// The code generator; one instance emits any number of trees.
#[derive(Debug)]
pub struct CodeGenerator;

impl CodeGenerator {
    /// Creates the generator.
    pub fn new() -> (r: CodeGenerator) {
        CodeGenerator
    }

    /// Emits a checked tree as Python text, exactly as [`spec_gen`] says.
    /// Emission always succeeds.
    pub fn generate_ast(&self, ast: &AstNode) -> (r: Result<String, CompilerError>)
        ensures
            r matches Ok(s) && s@ == spec_gen(ast.model()),
    {
        let mut out: Vec<char> = Vec::new();
        self.gen_into(ast, &mut out);
        proof {
            assert(Seq::<char>::empty() + spec_gen(ast.model()) =~= spec_gen(ast.model()));
        }
        Ok(text::chars_to_string(&out))
    }

    /// The operator text used in emitted expressions.
    fn generate_binary_operator(&self, operator: &BinaryOperator) -> (r: &'static str)
        ensures
            r@ == spec_binop_text(*operator),
    {
        match operator {
            BinaryOperator::Add => "+",
            BinaryOperator::Subtract => "-",
            BinaryOperator::Multiply => "*",
            BinaryOperator::Divide => "/",
            BinaryOperator::Equal => "==",
            BinaryOperator::NotEqual => "!=",
            BinaryOperator::LessThan => "<",
            BinaryOperator::LessThanOrEqual => "<=",
            BinaryOperator::GreaterThan => ">",
            BinaryOperator::GreaterThanOrEqual => ">=",
            BinaryOperator::And => "and",
            BinaryOperator::Or => "or",
        }
    }

    /// The prefix text of a unary operator.
    fn generate_unary_operator(&self, operator: &UnaryOperator) -> (r: &'static str)
        ensures
            r@ == spec_unop_text(*operator),
    {
        match operator {
            UnaryOperator::Not => "not ",
            UnaryOperator::Minus => "-",
        }
    }

    /// Appends the emitted text of one node.
    #[verifier::loop_isolation(false)]
    #[verifier::rlimit(100)]
    fn gen_into(&self, node: &AstNode, out: &mut Vec<char>)
        ensures
            final(out)@ == old(out)@ + spec_gen(node.model()),
        decreases node, 1int,
    {
        match node {
            AstNode::Program(_) => {
                self.gen_program_into(node, out);
            },
            AstNode::FunctionDeclaration { .. } => {
                self.gen_fn_decl_into(node, out);
            },
            AstNode::VariableDeclaration { name, value, .. } => {
                text::push_str_chars(out, name.as_str());
                text::push_str_chars(out, " = ");
                proof {
                    assert(decreases_to!(node => **value));
                }
                self.gen_into(value, out);
                proof {
                    assert(out@ =~= old(out)@ + spec_gen(node.model()));
                }
            },
            AstNode::FunctionCall { .. } => {
                self.gen_call_into(node, out);
            },
            AstNode::StringLiteral(v) => {
                text::push_str_chars(out, "\"");
                push_escaped(out, v.as_str());
                text::push_str_chars(out, "\"");
                proof {
                    assert(out@ =~= old(out)@ + spec_gen(node.model()));
                }
            },
            AstNode::NumberLiteral(v) => {
                text::push_str_chars(out, v.as_str());
            },
            AstNode::BooleanLiteral(b) => {
                if *b {
                    text::push_str_chars(out, "True");
                } else {
                    text::push_str_chars(out, "False");
                }
            },
            AstNode::Identifier(n) => {
                text::push_str_chars(out, n.as_str());
            },
            AstNode::BinaryExpression { .. } => {
                self.gen_binary_into(node, out);
            },
            AstNode::UnaryExpression { operator, operand } => {
                text::push_str_chars(out, self.generate_unary_operator(operator));
                proof {
                    assert(decreases_to!(node => **operand));
                }
                self.gen_into(operand, out);
                proof {
                    assert(out@ =~= old(out)@ + spec_gen(node.model()));
                }
            },
            AstNode::ArrayLiteral(elements) => {
                text::push_str_chars(out, "[");
                proof {
                    assert(decreases_to!(node => *elements));
                }
                self.push_args(elements, out);
                text::push_str_chars(out, "]");
                proof {
                    assert(out@ =~= old(out)@ + spec_gen(node.model()));
                }
            },
            AstNode::ArrayAccess { array, index } => {
                proof {
                    assert(decreases_to!(node => **array));
                    assert(decreases_to!(node => **index));
                }
                self.gen_into(array, out);
                text::push_str_chars(out, "[");
                self.gen_into(index, out);
                text::push_str_chars(out, "]");
                proof {
                    assert(out@ =~= old(out)@ + spec_gen(node.model()));
                }
            },
            AstNode::IfStatement { .. } => {
                self.gen_if_into(node, out);
            },
            AstNode::WhileStatement { .. } => {
                self.gen_while_into(node, out);
            },
            AstNode::ForStatement { .. } => {
                self.gen_for_into(node, out);
            },
            AstNode::Assignment { target, value } => {
                proof {
                    assert(decreases_to!(node => **target));
                    assert(decreases_to!(node => **value));
                }
                self.gen_into(target, out);
                text::push_str_chars(out, " = ");
                self.gen_into(value, out);
                proof {
                    assert(out@ =~= old(out)@ + spec_gen(node.model()));
                }
            },
            AstNode::ReturnStatement(value) => {
                match value {
                    Some(v) => {
                        text::push_str_chars(out, "return ");
                        proof {
                            assert(decreases_to!(node => **v));
                        }
                        self.gen_into(v, out);
                        proof {
                            assert(out@ =~= old(out)@ + spec_gen(node.model()));
                        }
                    },
                    None => {
                        text::push_str_chars(out, "return");
                    },
                }
            },
            _ => {
                proof {
                    assert(out@ =~= old(out)@ + spec_gen(node.model()));
                }
            },
        }
    }


    /// Appends the emitted text of a program node.
    #[verifier::loop_isolation(false)]
    #[verifier::rlimit(60)]
    fn gen_program_into(&self, node: &AstNode, out: &mut Vec<char>)
        requires
            node matches AstNode::Program(_),
        ensures
            final(out)@ == old(out)@ + spec_gen(node.model()),
        decreases node, 0int,
    {
        match node {
            AstNode::Program(stmts) => {
                let ghost ms = AstNode::models(stmts@);
                proof {
                    lemma_models_index(stmts@);
                    assert(ms.subrange(0, 0) =~= Seq::<AstModel>::empty());
                    assert(out@ =~= old(out)@ + spec_join(
                        spec_sections(ms.subrange(0, 0)),
                        "\n\n"@,
                    ));
                }
                let mut first: bool = true;
                let n = stmts.len();
                let mut k: usize = 0;
                while k < n
                    invariant
                        n == stmts@.len(),
                        ms == AstNode::models(stmts@),
                        ms.len() == n,
                        k <= n,
                        out@ == old(out)@ + spec_join(
                            spec_sections(ms.subrange(0, k as int)),
                            "\n\n"@,
                        ),
                        first == (spec_sections(ms.subrange(0, k as int)).len() == 0),
                    decreases n - k,
                {
                    proof {
                        assert(decreases_to!(node => *stmts));
                        assert(decreases_to!(*stmts => stmts@[k as int]));
                    }
                    let mut tmp: Vec<char> = Vec::new();
                    self.gen_into(&stmts[k], &mut tmp);
                    proof {
                        assert(tmp@ =~= spec_gen(ms[k as int]));
                        lemma_sections_push(ms.subrange(0, k as int), ms[k as int]);
                        assert(ms.subrange(0, k as int).push(ms[k as int]) =~= ms.subrange(
                            0,
                            k + 1,
                        ));
                        lemma_join_push(
                            spec_sections(ms.subrange(0, k as int)),
                            spec_gen(ms[k as int]),
                            "\n\n"@,
                        );
                    }
                    if visible(&tmp) {
                        if !first {
                            text::push_str_chars(out, "\n\n");
                        }
                        text::push_chars(out, &tmp);
                        first = false;
                        proof {
                            assert(spec_sections(ms.subrange(0, k as int)).push(
                                spec_gen(ms[k as int]),
                            ) =~= spec_sections(ms.subrange(0, k as int)) + seq![
                                spec_gen(ms[k as int]),
                            ]);
                            assert(spec_sections(ms.subrange(0, k as int)) + seq![
                                spec_gen(ms[k as int]),
                            ] =~= spec_sections(ms.subrange(0, k + 1)));
                            assert(out@ =~= old(out)@ + spec_join(
                                spec_sections(ms.subrange(0, k + 1)),
                                "\n\n"@,
                            ));
                        }
                    } else {
                        proof {
                            assert(spec_sections(ms.subrange(0, k as int)) + Seq::<
                                Seq<char>,
                            >::empty() =~= spec_sections(ms.subrange(0, k as int)));
                            assert(spec_sections(ms.subrange(0, k + 1)) == spec_sections(
                                ms.subrange(0, k as int),
                            ));
                        }
                    }
                    k = k + 1;
                }
                proof {
                    assert(ms.subrange(0, n as int) =~= ms);
                }
            },
            _ => {
                proof {
                    assert(false);
                }
            },
        }
    }

    /// Appends the emitted text of an `if` statement node.
    #[verifier::loop_isolation(false)]
    #[verifier::rlimit(60)]
    fn gen_if_into(&self, node: &AstNode, out: &mut Vec<char>)
        requires
            node matches AstNode::IfStatement { .. },
        ensures
            final(out)@ == old(out)@ + spec_gen(node.model()),
        decreases node, 0int,
    {
        match node {
            AstNode::IfStatement { condition, then_body, elseif_branches, else_body } => {
                text::push_str_chars(out, "if ");
                proof {
                    assert(decreases_to!(node => **condition));
                    assert(decreases_to!(node => *then_body));
                }
                self.gen_into(condition, out);
                text::push_str_chars(out, ":\n");
                self.gen_body_into(then_body, out);
                let ghost bm = AstNode::branches_model(elseif_branches@);
                let ghost mid = out@;
                proof {
                    lemma_branches_model_index(elseif_branches@);
                    assert(bm.subrange(0, 0) =~= Seq::<(AstModel, Seq<AstModel>)>::empty());
                    assert(mid =~= mid + spec_elifs(bm.subrange(0, 0)));
                }
                let bn = elseif_branches.len();
                let mut k: usize = 0;
                while k < bn
                    invariant
                        bn == elseif_branches@.len(),
                        bm == AstNode::branches_model(elseif_branches@),
                        bm.len() == bn,
                        k <= bn,
                        out@ == mid + spec_elifs(bm.subrange(0, k as int)),
                    decreases bn - k,
                {
                    proof {
                        lemma_elifs_push(bm.subrange(0, k as int), bm[k as int]);
                        assert(bm.subrange(0, k as int).push(bm[k as int]) =~= bm.subrange(
                            0,
                            k + 1,
                        ));
                        assert(decreases_to!(node => *elseif_branches));
                        assert(decreases_to!(*elseif_branches => elseif_branches@[k as int]));
                        assert(decreases_to!(elseif_branches@[k as int] => elseif_branches@[k as int].0));
                        assert(decreases_to!(elseif_branches@[k as int] => elseif_branches@[k as int].1));
                    }
                    text::push_str_chars(out, "\nelif ");
                    self.gen_into(&elseif_branches[k].0, out);
                    text::push_str_chars(out, ":\n");
                    self.gen_body_into(&elseif_branches[k].1, out);
                    k = k + 1;
                    proof {
                        assert(out@ =~= mid + spec_elifs(bm.subrange(0, k as int)));
                    }
                }
                proof {
                    assert(bm.subrange(0, bn as int) =~= bm);
                }
                match else_body {
                    Some(else_statements) => {
                        proof {
                            assert(decreases_to!(node => *else_statements));
                        }
                        text::push_str_chars(out, "\nelse:\n");
                        self.gen_body_into(else_statements, out);
                    },
                    None => {},
                }
                proof {
                    assert(out@ =~= old(out)@ + spec_gen(node.model()));
                }
            },
            _ => {
                proof {
                    assert(false);
                }
            },
        }
    }


    /// Appends the emitted text of a function declaration.
    #[verifier::rlimit(60)]
    fn gen_fn_decl_into(&self, node: &AstNode, out: &mut Vec<char>)
        requires
            node matches AstNode::FunctionDeclaration { .. },
        ensures
            final(out)@ == old(out)@ + spec_gen(node.model()),
        decreases node, 0int,
    {
        match node {
            AstNode::FunctionDeclaration { name, params, body, .. } => {
                text::push_str_chars(out, "def ");
                text::push_str_chars(out, name.as_str());
                text::push_str_chars(out, "(");
                self.push_param_names(params, out);
                text::push_str_chars(out, "):\n");
                proof {
                    assert(decreases_to!(node => *body));
                }
                self.gen_body_into(body, out);
                proof {
                    assert(out@ =~= old(out)@ + spec_gen(node.model()));
                }
            },
            _ => {
                proof {
                    assert(false);
                }
            },
        }
    }


    /// Appends the emitted text of a call; `output` lowers to `print`.
    #[verifier::rlimit(60)]
    fn gen_call_into(&self, node: &AstNode, out: &mut Vec<char>)
        requires
            node matches AstNode::FunctionCall { .. },
        ensures
            final(out)@ == old(out)@ + spec_gen(node.model()),
        decreases node, 0int,
    {
        match node {
            AstNode::FunctionCall { name, args } => {
                proof {
                    lemma_models_index(args@);
                }
                if text::str_eq(name.as_str(), "output") && args.len() == 1 {
                    text::push_str_chars(out, "print(");
                    proof {
                        assert(decreases_to!(node => *args));
                        assert(decreases_to!(*args => args@[0]));
                    }
                    self.gen_into(&args[0], out);
                    text::push_str_chars(out, ")");
                    proof {
                        assert(out@ =~= old(out)@ + spec_gen(node.model()));
                    }
                } else {
                    text::push_str_chars(out, name.as_str());
                    text::push_str_chars(out, "(");
                    proof {
                        assert(decreases_to!(node => *args));
                    }
                    self.push_args(args, out);
                    text::push_str_chars(out, ")");
                    proof {
                        assert(out@ =~= old(out)@ + spec_gen(node.model()));
                    }
                }
            },
            _ => {
                proof {
                    assert(false);
                }
            },
        }
    }


    /// Appends the emitted text of a binary expression; `+` stringifies.
    #[verifier::rlimit(60)]
    fn gen_binary_into(&self, node: &AstNode, out: &mut Vec<char>)
        requires
            node matches AstNode::BinaryExpression { .. },
        ensures
            final(out)@ == old(out)@ + spec_gen(node.model()),
        decreases node, 0int,
    {
        match node {
            AstNode::BinaryExpression { left, operator, right } => {
                proof {
                    assert(decreases_to!(node => **left));
                    assert(decreases_to!(node => **right));
                }
                if matches!(operator, BinaryOperator::Add) {
                    text::push_str_chars(out, "str(");
                    self.gen_into(left, out);
                    text::push_str_chars(out, ") + str(");
                    self.gen_into(right, out);
                    text::push_str_chars(out, ")");
                    proof {
                        assert(out@ =~= old(out)@ + spec_gen(node.model()));
                    }
                } else {
                    self.gen_into(left, out);
                    text::push_str_chars(out, " ");
                    text::push_str_chars(out, self.generate_binary_operator(operator));
                    text::push_str_chars(out, " ");
                    self.gen_into(right, out);
                    proof {
                        assert(out@ =~= old(out)@ + spec_gen(node.model()));
                    }
                }
            },
            _ => {
                proof {
                    assert(false);
                }
            },
        }
    }


    /// Appends the emitted text of a `for` loop and its `range` bound.
    #[verifier::rlimit(60)]
    fn gen_for_into(&self, node: &AstNode, out: &mut Vec<char>)
        requires
            node matches AstNode::ForStatement { .. },
        ensures
            final(out)@ == old(out)@ + spec_gen(node.model()),
        decreases node, 0int,
    {
        match node {
            AstNode::ForStatement { counter_var, condition, body } => {
                proof {
                    reveal_with_fuel(AstNode::model, 3);
                }
                text::push_str_chars(out, "for ");
                text::push_str_chars(out, counter_var.as_str());
                text::push_str_chars(out, " in range(");
                let mut plain: bool = true;
                match &**condition {
                    AstNode::BinaryExpression { left: _, operator: BinaryOperator::LessThan, right } => {
                        match &**right {
                            AstNode::NumberLiteral(limit) => {
                                text::push_str_chars(out, "int(");
                                text::push_str_chars(out, limit.as_str());
                                text::push_str_chars(out, ")");
                                plain = false;
                            },
                            _ => {},
                        }
                    },
                    _ => {},
                }
                if plain {
                    text::push_str_chars(out, "10");
                }
                text::push_str_chars(out, "):\n");
                proof {
                    assert(decreases_to!(node => *body));
                }
                self.gen_body_into(body, out);
                proof {
                    assert(out@ =~= old(out)@ + spec_gen(node.model()));
                }
            },
            _ => {
                proof {
                    assert(false);
                }
            },
        }
    }


    /// Appends the emitted text of a `while` loop.
    #[verifier::rlimit(60)]
    fn gen_while_into(&self, node: &AstNode, out: &mut Vec<char>)
        requires
            node matches AstNode::WhileStatement { .. },
        ensures
            final(out)@ == old(out)@ + spec_gen(node.model()),
        decreases node, 0int,
    {
        match node {
            AstNode::WhileStatement { condition, body } => {
                text::push_str_chars(out, "while ");
                proof {
                    assert(decreases_to!(node => **condition));
                    assert(decreases_to!(node => *body));
                }
                self.gen_into(condition, out);
                text::push_str_chars(out, ":\n");
                self.gen_body_into(body, out);
                proof {
                    assert(out@ =~= old(out)@ + spec_gen(node.model()));
                }
            },
            _ => {
                proof {
                    assert(false);
                }
            },
        }
    }

    /// Appends the parameter names of a declaration, comma separated.
    #[verifier::loop_isolation(false)]
    fn push_param_names(&self, params: &Vec<(String, KururiType)>, out: &mut Vec<char>)
        ensures
            final(out)@ == old(out)@ + spec_param_names(AstNode::params_model(params@)),
    {
        let ghost pm = AstNode::params_model(params@);
        let n = params.len();
        let mut k: usize = 0;
        proof {
            assert(pm.subrange(0, 0) =~= Seq::<(Seq<char>, crate::ast::TypeModel)>::empty());
            assert(out@ =~= old(out)@ + spec_param_names(pm.subrange(0, 0)));
        }
        while k < n
            invariant
                n == params@.len(),
                pm == AstNode::params_model(params@),
                pm.len() == n,
                k <= n,
                out@ == old(out)@ + spec_param_names(pm.subrange(0, k as int)),
            decreases n - k,
        {
            proof {
                lemma_param_names_push(pm.subrange(0, k as int), pm[k as int]);
                assert(pm.subrange(0, k as int).push(pm[k as int]) =~= pm.subrange(0, k + 1));
                assert(pm[k as int].0 == params@[k as int].0@);
            }
            if k > 0 {
                text::push_str_chars(out, ", ");
            }
            text::push_str_chars(out, params[k].0.as_str());
            k = k + 1;
            proof {
                assert(out@ =~= old(out)@ + spec_param_names(pm.subrange(0, k as int)));
            }
        }
        proof {
            assert(pm.subrange(0, n as int) =~= pm);
        }
    }

    /// Appends the emitted argument texts, comma separated.
    #[verifier::loop_isolation(false)]
    fn push_args(&self, args: &Vec<AstNode>, out: &mut Vec<char>)
        ensures
            final(out)@ == old(out)@ + spec_gen_args(AstNode::models(args@)),
        decreases args, 1int,
    {
        let ghost ms = AstNode::models(args@);
        proof {
            lemma_models_index(args@);
        }
        let n = args.len();
        let mut k: usize = 0;
        proof {
            assert(ms.subrange(0, 0) =~= Seq::<AstModel>::empty());
            assert(out@ =~= old(out)@ + spec_gen_args(ms.subrange(0, 0)));
        }
        while k < n
            invariant
                n == args@.len(),
                ms == AstNode::models(args@),
                ms.len() == n,
                k <= n,
                out@ == old(out)@ + spec_gen_args(ms.subrange(0, k as int)),
            decreases n - k,
        {
            proof {
                lemma_gen_args_push(ms.subrange(0, k as int), ms[k as int]);
                assert(ms.subrange(0, k as int).push(ms[k as int]) =~= ms.subrange(0, k + 1));
                assert(decreases_to!(args => args@[k as int]));
            }
            if k > 0 {
                text::push_str_chars(out, ", ");
            }
            self.gen_into(&args[k], out);
            k = k + 1;
            proof {
                assert(out@ =~= old(out)@ + spec_gen_args(ms.subrange(0, k as int)));
            }
        }
        proof {
            assert(ms.subrange(0, n as int) =~= ms);
        }
    }

    /// Appends the emitted text of a block: indented non-blank lines joined
    /// with newlines, or a single `pass`.
    #[verifier::loop_isolation(false)]
    #[verifier::rlimit(60)]
    fn gen_body_into(&self, stmts: &Vec<AstNode>, out: &mut Vec<char>)
        ensures
            final(out)@ == old(out)@ + spec_gen_body(AstNode::models(stmts@)),
        decreases stmts, 1int,
    {
        let ghost ms = AstNode::models(stmts@);
        proof {
            lemma_models_index(stmts@);
        }
        let mut body_lines: Vec<Vec<char>> = Vec::new();
        proof {
            assert(ms.subrange(0, 0) =~= Seq::<AstModel>::empty());
            assert(body_lines.deep_view() =~~= spec_body_lines(ms.subrange(0, 0)));
        }
        let n = stmts.len();
        let mut k: usize = 0;
        while k < n
            invariant
                n == stmts@.len(),
                ms == AstNode::models(stmts@),
                ms.len() == n,
                k <= n,
                body_lines.deep_view() == spec_body_lines(ms.subrange(0, k as int)),
            decreases n - k,
        {
            proof {
                assert(decreases_to!(stmts => stmts@[k as int]));
            }
            let mut tmp: Vec<char> = Vec::new();
            self.gen_into(&stmts[k], &mut tmp);
            proof {
                assert(tmp@ =~= spec_gen(ms[k as int]));
                lemma_body_lines_push(ms.subrange(0, k as int), ms[k as int]);
                assert(ms.subrange(0, k as int).push(ms[k as int]) =~= ms.subrange(0, k + 1));
            }
            if visible(&tmp) {
                let ghost before = body_lines.deep_view();
                append_indented_lines(&tmp, &mut body_lines);
                proof {
                    assert(spec_stmt_lines(spec_gen(ms[k as int])) == spec_indent_lines(
                        lines_from(tmp@, 0),
                    ));
                    assert(body_lines.deep_view() =~~= spec_body_lines(ms.subrange(0, k + 1)));
                }
            } else {
                proof {
                    assert(spec_stmt_lines(spec_gen(ms[k as int])) =~= Seq::<Seq<char>>::empty());
                    assert(spec_body_lines(ms.subrange(0, k as int)) + Seq::<Seq<char>>::empty()
                        =~~= spec_body_lines(ms.subrange(0, k as int)));
                }
            }
            k = k + 1;
        }
        proof {
            assert(ms.subrange(0, n as int) =~= ms);
        }
        if body_lines.len() == 0 {
            proof {
                assert(spec_body_lines(ms).len() == 0);
            }
            text::push_str_chars(out, "    pass");
        } else {
            proof {
                assert(spec_body_lines(ms).len() > 0);
            }
            push_joined(out, &body_lines, "\n");
        }
    }
}

proof fn lemma_param_names_push(
    params: Seq<(Seq<char>, crate::ast::TypeModel)>,
    x: (Seq<char>, crate::ast::TypeModel),
)
    ensures
        params.len() == 0 ==> spec_param_names(params.push(x)) == x.0,
        params.len() > 0 ==> spec_param_names(params.push(x)) == spec_param_names(params) + ", "@
            + x.0,
    decreases params,
{
    if params.len() > 0 {
        lemma_param_names_push(params.drop_first(), x);
        assert(params.push(x).drop_first() =~= params.drop_first().push(x));
        if params.len() > 1 {
            assert(params[0].0 + ", "@ + (spec_param_names(params.drop_first()) + ", "@ + x.0) =~= (
            params[0].0 + ", "@ + spec_param_names(params.drop_first())) + ", "@ + x.0);
        }
    }
}

proof fn lemma_gen_args_push(args: Seq<AstModel>, x: AstModel)
    ensures
        args.len() == 0 ==> spec_gen_args(args.push(x)) == spec_gen(x),
        args.len() > 0 ==> spec_gen_args(args.push(x)) == spec_gen_args(args) + ", "@ + spec_gen(
            x,
        ),
    decreases args,
{
    if args.len() > 0 {
        lemma_gen_args_push(args.drop_first(), x);
        assert(args.push(x).drop_first() =~= args.drop_first().push(x));
        if args.len() > 1 {
            assert(spec_gen(args[0]) + ", "@ + (spec_gen_args(args.drop_first()) + ", "@ + spec_gen(
                x,
            )) =~= (spec_gen(args[0]) + ", "@ + spec_gen_args(args.drop_first())) + ", "@
                + spec_gen(x));
        }
    }
}


// ---------------------------------------------------------------------------
// The older transport shape
// ---------------------------------------------------------------------------
/// One print statement of the older shape: the item re-quoted with double
/// quotes escaped.
pub open spec fn spec_print_stmt(s: Seq<char>) -> Seq<char> {
    "print(\""@ + spec_escape_quotes(s) + "\")"@
}

/// The print statements of the items, in order.
pub open spec fn spec_print_items(items: Seq<Seq<char>>) -> Seq<Seq<char>>
    decreases items,
{
    if items.len() == 0 {
        Seq::empty()
    } else {
        seq![spec_print_stmt(items[0])] + spec_print_items(items.drop_first())
    }
}

/// The whole program of the older shape: a `main` that prints each item,
/// plus the entry-point guard.
pub open spec fn spec_generate_legacy(items: Seq<Seq<char>>) -> Seq<char> {
    "def main():\n    "@ + spec_join(spec_print_items(items), "\n    "@)
        + "\n\nif __name__ == \"__main__\":\n    main()"@
}

proof fn lemma_print_items_push(items: Seq<Seq<char>>, x: Seq<char>)
    ensures
        spec_print_items(items.push(x)) == spec_print_items(items) + seq![spec_print_stmt(x)],
    decreases items,
{
    if items.len() == 0 {
        assert(items.push(x)[0] == x);
        assert(items.push(x).drop_first() =~= Seq::<Seq<char>>::empty());
        assert(spec_print_items(Seq::<Seq<char>>::empty()) =~= Seq::<Seq<char>>::empty());
        assert(spec_print_items(items.push(x)) =~= spec_print_items(items) + seq![
            spec_print_stmt(x),
        ]);
    } else {
        lemma_print_items_push(items.drop_first(), x);
        assert(items.push(x).drop_first() =~= items.drop_first().push(x));
        assert(items.push(x)[0] == items[0]);
        assert(spec_print_items(items.push(x)) =~= spec_print_items(items) + seq![
            spec_print_stmt(x),
        ]);
    }
}

impl CodeGenerator {
    /// One print statement of the older shape.
    fn generate_print_statement(&self, content: &str) -> (r: String)
        ensures
            r@ == spec_print_stmt(content@),
    {
        let mut out: Vec<char> = Vec::new();
        text::push_str_chars(&mut out, "print(\"");
        push_escaped(&mut out, content);
        text::push_str_chars(&mut out, "\")");
        proof {
            assert(out@ =~= spec_print_stmt(content@));
        }
        text::chars_to_string(&out)
    }

    /// Emits the older transport shape: one print per item inside `main`;
    /// an empty item list is a code-generation diagnostic.
    #[verifier::loop_isolation(false)]
    pub fn generate(&self, checked_ast: &[String]) -> (r: Result<String, CompilerError>)
        ensures
            checked_ast@.len() == 0 ==> (r matches Err(e) && e.deep_view() == ErrorModel::Codegen(
                "No AST to generate code from"@,
            )),
            checked_ast@.len() != 0 ==> (r matches Ok(s) && s@ == spec_generate_legacy(
                checked_ast.deep_view(),
            )),
    {
        if checked_ast.is_empty() {
            return Err(
                CompilerError::CodegenError(String::from_str("No AST to generate code from")),
            );
        }
        let ghost items = checked_ast.deep_view();
        let mut out: Vec<char> = Vec::new();
        text::push_str_chars(&mut out, "def main():\n    ");
        let ghost base = out@;
        let n = checked_ast.len();
        let mut k: usize = 0;
        proof {
            assert(items.subrange(0, 0) =~= Seq::<Seq<char>>::empty());
            assert(spec_print_items(items.subrange(0, 0)) =~= Seq::<Seq<char>>::empty());
            assert(out@ =~= base + spec_join(spec_print_items(items.subrange(0, 0)), "\n    "@));
        }
        while k < n
            invariant
                n == checked_ast@.len(),
                items == checked_ast.deep_view(),
                items.len() == n,
                k <= n,
                out@ == base + spec_join(spec_print_items(items.subrange(0, k as int)), "\n    "@),
            decreases n - k,
        {
            proof {
                lemma_print_items_push(items.subrange(0, k as int), items[k as int]);
                assert(items.subrange(0, k as int).push(items[k as int]) =~= items.subrange(
                    0,
                    k + 1,
                ));
                lemma_join_push(
                    spec_print_items(items.subrange(0, k as int)),
                    spec_print_stmt(items[k as int]),
                    "\n    "@,
                );
                assert(spec_print_items(items.subrange(0, k as int)).push(
                    spec_print_stmt(items[k as int]),
                ) =~= spec_print_items(items.subrange(0, k as int)) + seq![
                    spec_print_stmt(items[k as int]),
                ]);
                assert(items[k as int] =~= checked_ast@[k as int]@);
            }
            if k > 0 {
                text::push_str_chars(&mut out, "\n    ");
            }
            text::push_str_chars(&mut out, "print(\"");
            push_escaped(&mut out, checked_ast[k].as_str());
            text::push_str_chars(&mut out, "\")");
            k = k + 1;
            proof {
                assert(out@ =~= base + spec_join(
                    spec_print_items(items.subrange(0, k as int)),
                    "\n    "@,
                ));
            }
        }
        text::push_str_chars(&mut out, "\n\nif __name__ == \"__main__\":\n    main()");
        proof {
            assert(items.subrange(0, n as int) =~= items);
            assert(out@ =~= spec_generate_legacy(items));
        }
        Ok(text::chars_to_string(&out))
    }
}

impl Default for CodeGenerator {
    /// A fresh generator, as [`CodeGenerator::new`] gives.
    fn default() -> (r: CodeGenerator) {
        CodeGenerator::new()
    }
}


// ---------------------------------------------------------------------------
// Laws of emission
// ---------------------------------------------------------------------------
/// A text that starts with a visible prefix stays visible after joining.
proof fn lemma_join_first_visible(parts: Seq<Seq<char>>, sep: Seq<char>)
    requires
        parts.len() > 0,
        has_visible_char(parts[0]),
    ensures
        has_visible_char(spec_join(parts, sep)),
    decreases parts,
{
    let i = choose|i: int| 0 <= i < parts[0].len() && !is_unicode_space(#[trigger] parts[0][i]);
    if parts.len() == 1 {
        assert(!is_unicode_space(spec_join(parts, sep)[i]));
    } else {
        assert(spec_join(parts, sep)[i] == parts[0][i]);
        assert(!is_unicode_space(spec_join(parts, sep)[i]));
    }
}

/// Every line kept by the indenter carries a visible character.
proof fn lemma_indent_lines_visible(ls: Seq<Seq<char>>)
    ensures
        forall|k: int|
            0 <= k < spec_indent_lines(ls).len() ==> has_visible_char(
                #[trigger] spec_indent_lines(ls)[k],
            ),
    decreases ls,
{
    if ls.len() > 0 {
        lemma_indent_lines_visible(ls.drop_first());
        if has_visible_char(ls[0]) {
            let i = choose|i: int| 0 <= i < ls[0].len() && !is_unicode_space(#[trigger] ls[0][i]);
            reveal_strlit("    ");
            assert(("    "@ + ls[0])[4 + i] == ls[0][i]);
            assert(has_visible_char("    "@ + ls[0]));
            assert forall|k: int| 0 <= k < spec_indent_lines(ls).len() implies has_visible_char(
                #[trigger] spec_indent_lines(ls)[k],
            ) by {
                if k > 0 {
                    assert(spec_indent_lines(ls)[k] == spec_indent_lines(ls.drop_first())[k - 1]);
                }
            }
        } else {
            assert forall|k: int| 0 <= k < spec_indent_lines(ls).len() implies has_visible_char(
                #[trigger] spec_indent_lines(ls)[k],
            ) by {
                assert(spec_indent_lines(ls)[k] == spec_indent_lines(ls.drop_first())[k]);
            }
        }
    }
}

/// Every line of a block's emitted body carries a visible character.
proof fn lemma_body_lines_visible(stmts: Seq<AstModel>)
    ensures
        forall|k: int|
            0 <= k < spec_body_lines(stmts).len() ==> has_visible_char(
                #[trigger] spec_body_lines(stmts)[k],
            ),
    decreases stmts,
{
    if stmts.len() > 0 {
        lemma_body_lines_visible(stmts.drop_first());
        lemma_indent_lines_visible(lines_from(spec_gen(stmts[0]), 0));
        let first = spec_stmt_lines(spec_gen(stmts[0]));
        assert forall|k: int| 0 <= k < spec_body_lines(stmts).len() implies has_visible_char(
            #[trigger] spec_body_lines(stmts)[k],
        ) by {
            if k < first.len() {
                assert(spec_body_lines(stmts)[k] == first[k]);
            } else {
                assert(spec_body_lines(stmts)[k] == spec_body_lines(stmts.drop_first())[k
                    - first.len()]);
            }
        }
    }
}

/// Emitter totality on blocks: every emitted block holds at least one
/// non-blank line — its statements' indented lines, each carrying a visible
/// character, or the single `pass` statement.
pub proof fn lemma_block_nonblank(stmts: Seq<AstModel>)
    ensures
        has_visible_char(spec_gen_body(stmts)),
{
    let bl = spec_body_lines(stmts);
    if bl.len() == 0 {
        assert(spec_gen_body(stmts) == "    pass"@);
        proof_pass_visible();
    } else {
        lemma_body_lines_visible(stmts);
        assert(has_visible_char(bl[0]));
        lemma_join_first_visible(bl, "\n"@);
    }
}

/// The `pass` placeholder is visibly non-blank.
proof fn proof_pass_visible()
    ensures
        has_visible_char("    pass"@),
{
    reveal_strlit("    pass");
    assert(!is_unicode_space("    pass"@[4]));
}

} // verus!
