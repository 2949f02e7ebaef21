//! The abstract syntax tree of the Kururi language and its type lattice.
//!
//! The AST is one recursive tagged union; a program node owns an ordered
//! list of top-level statements, and every node owns its children outright.
//! A number literal carries its canonical decimal lexeme as text, exactly as
//! in the token model.
//!
//! Every syntactic type has a mathematical model ([`AstModel`],
//! [`TypeModel`]) in which text payloads are character sequences and owned
//! vectors are sequences; the models are what contracts speak about.

use vstd::prelude::*;

use crate::text;

verus! {

/// A Kururi source-language type: a closed lattice with structural
/// equality and no subtyping.
#[derive(Debug, PartialEq)]
pub enum KururiType {
    String,
    Number,
    Void,
    Array(Box<KururiType>),
    Class(String),
}

/// The model of a source-language type.
pub enum TypeModel {
    String,
    Number,
    Void,
    Array(Box<TypeModel>),
    Class(Seq<char>),
}

impl KururiType {
    /// The mathematical model of the type.
    pub open spec fn model(&self) -> TypeModel
        decreases self,
    {
        match self {
            KururiType::String => TypeModel::String,
            KururiType::Number => TypeModel::Number,
            KururiType::Void => TypeModel::Void,
            KururiType::Array(inner) => TypeModel::Array(Box::new(inner.model())),
            KururiType::Class(name) => TypeModel::Class(name@),
        }
    }
}

impl DeepView for KururiType {
    type V = TypeModel;

    open spec fn deep_view(&self) -> TypeModel {
        self.model()
    }
}

/// The display text of a type: `string`, `number`, `void`, the element
/// type followed by `[]` for arrays, and the class name for classes.
pub open spec fn spec_type_text(t: TypeModel) -> Seq<char>
    decreases t,
{
    match t {
        TypeModel::String => "string"@,
        TypeModel::Number => "number"@,
        TypeModel::Void => "void"@,
        TypeModel::Array(inner) => spec_type_text(*inner) + "[]"@,
        TypeModel::Class(name) => name,
    }
}

impl KururiType {
    /// Appends the display text of the type to `out`.
    pub fn push_type_text(&self, out: &mut Vec<char>)
        ensures
            final(out)@ == old(out)@ + spec_type_text(self.model()),
        decreases self,
    {
        match self {
            KururiType::String => text::push_str_chars(out, "string"),
            KururiType::Number => text::push_str_chars(out, "number"),
            KururiType::Void => text::push_str_chars(out, "void"),
            KururiType::Array(inner) => {
                inner.push_type_text(out);
                text::push_str_chars(out, "[]");
                proof {
                    assert(out@ =~= old(out)@ + spec_type_text(self.model()));
                }
            },
            KururiType::Class(name) => text::push_str_chars(out, name.as_str()),
        }
    }

    /// Renders the type as source text, as [`spec_type_text`] says.
    pub fn display_text(&self) -> (r: String)
        ensures
            r@ == spec_type_text(self.model()),
    {
        let mut out: Vec<char> = Vec::new();
        self.push_type_text(&mut out);
        text::chars_to_string(&out)
    }

    /// Structural equality on types.
    pub fn type_eq(&self, other: &KururiType) -> (r: bool)
        ensures
            r == (self.model() == other.model()),
        decreases self,
    {
        match (self, other) {
            (KururiType::String, KururiType::String) => true,
            (KururiType::Number, KururiType::Number) => true,
            (KururiType::Void, KururiType::Void) => true,
            (KururiType::Array(a), KururiType::Array(b)) => a.type_eq(b),
            (KururiType::Class(a), KururiType::Class(b)) => text::str_eq(a.as_str(), b.as_str()),
            _ => false,
        }
    }

    /// An owned copy of the type with the same model.
    pub fn duplicate(&self) -> (r: KururiType)
        ensures
            r.model() == self.model(),
        decreases self,
    {
        match self {
            KururiType::String => KururiType::String,
            KururiType::Number => KururiType::Number,
            KururiType::Void => KururiType::Void,
            KururiType::Array(inner) => KururiType::Array(Box::new(inner.duplicate())),
            KururiType::Class(name) => KururiType::Class(name.clone()),
        }
    }
}

/// A binary operator of the expression grammar.
#[derive(Debug, Clone, PartialEq)]
pub enum BinaryOperator {
    Add,
    Subtract,
    Multiply,
    Divide,
    Equal,
    NotEqual,
    LessThan,
    LessThanOrEqual,
    GreaterThan,
    GreaterThanOrEqual,
    And,
    Or,
}

impl BinaryOperator {
    /// An owned copy of the operator.
    pub fn duplicate(&self) -> (r: BinaryOperator)
        ensures
            r == *self,
    {
        match self {
            BinaryOperator::Add => BinaryOperator::Add,
            BinaryOperator::Subtract => BinaryOperator::Subtract,
            BinaryOperator::Multiply => BinaryOperator::Multiply,
            BinaryOperator::Divide => BinaryOperator::Divide,
            BinaryOperator::Equal => BinaryOperator::Equal,
            BinaryOperator::NotEqual => BinaryOperator::NotEqual,
            BinaryOperator::LessThan => BinaryOperator::LessThan,
            BinaryOperator::LessThanOrEqual => BinaryOperator::LessThanOrEqual,
            BinaryOperator::GreaterThan => BinaryOperator::GreaterThan,
            BinaryOperator::GreaterThanOrEqual => BinaryOperator::GreaterThanOrEqual,
            BinaryOperator::And => BinaryOperator::And,
            BinaryOperator::Or => BinaryOperator::Or,
        }
    }
}

/// A unary prefix operator.
#[derive(Debug, Clone, PartialEq)]
pub enum UnaryOperator {
    Not,
    Minus,
}

impl UnaryOperator {
    /// An owned copy of the operator.
    pub fn duplicate(&self) -> (r: UnaryOperator)
        ensures
            r == *self,
    {
        match self {
            UnaryOperator::Not => UnaryOperator::Not,
            UnaryOperator::Minus => UnaryOperator::Minus,
        }
    }
}

/// An AST node: statements and expressions of the source language.
#[derive(Debug, PartialEq)]
pub enum AstNode {
    /// The whole program: its ordered top-level statements.
    Program(Vec<AstNode>),
    VariableDeclaration { is_const: bool, name: String, var_type: KururiType, value: Box<AstNode> },
    FunctionDeclaration {
        name: String,
        params: Vec<(String, KururiType)>,
        return_type: KururiType,
        body: Vec<AstNode>,
        is_public: bool,
    },
    ClassDeclaration {
        name: String,
        fields: Vec<(String, KururiType, AstNode)>,
        methods: Vec<AstNode>,
    },
    IfStatement {
        condition: Box<AstNode>,
        then_body: Vec<AstNode>,
        elseif_branches: Vec<(AstNode, Vec<AstNode>)>,
        else_body: Option<Vec<AstNode>>,
    },
    WhileStatement { condition: Box<AstNode>, body: Vec<AstNode> },
    ForStatement { counter_var: String, condition: Box<AstNode>, body: Vec<AstNode> },
    ForeachStatement { var_name: String, iterable: Box<AstNode>, body: Vec<AstNode> },
    BinaryExpression { left: Box<AstNode>, operator: BinaryOperator, right: Box<AstNode> },
    UnaryExpression { operator: UnaryOperator, operand: Box<AstNode> },
    FunctionCall { name: String, args: Vec<AstNode> },
    MethodCall { object: Box<AstNode>, method: String, args: Vec<AstNode> },
    ArrayAccess { array: Box<AstNode>, index: Box<AstNode> },
    ArrayLiteral(Vec<AstNode>),
    PropertyAccess { object: Box<AstNode>, property: String },
    Assignment { target: Box<AstNode>, value: Box<AstNode> },
    StringLiteral(String),
    /// A number literal, carried as its canonical decimal lexeme.
    NumberLiteral(String),
    BooleanLiteral(bool),
    Identifier(String),
    ReturnStatement(Option<Box<AstNode>>),
    NewExpression { class_name: String, args: Vec<AstNode> },
}

/// The model of an AST node.
pub enum AstModel {
    Program(Seq<AstModel>),
    VariableDeclaration {
        is_const: bool,
        name: Seq<char>,
        var_type: TypeModel,
        value: Box<AstModel>,
    },
    FunctionDeclaration {
        name: Seq<char>,
        params: Seq<(Seq<char>, TypeModel)>,
        return_type: TypeModel,
        body: Seq<AstModel>,
        is_public: bool,
    },
    ClassDeclaration {
        name: Seq<char>,
        fields: Seq<(Seq<char>, TypeModel, AstModel)>,
        methods: Seq<AstModel>,
    },
    IfStatement {
        condition: Box<AstModel>,
        then_body: Seq<AstModel>,
        elseif_branches: Seq<(AstModel, Seq<AstModel>)>,
        else_body: Option<Seq<AstModel>>,
    },
    WhileStatement { condition: Box<AstModel>, body: Seq<AstModel> },
    ForStatement { counter_var: Seq<char>, condition: Box<AstModel>, body: Seq<AstModel> },
    ForeachStatement { var_name: Seq<char>, iterable: Box<AstModel>, body: Seq<AstModel> },
    BinaryExpression { left: Box<AstModel>, operator: BinaryOperator, right: Box<AstModel> },
    UnaryExpression { operator: UnaryOperator, operand: Box<AstModel> },
    FunctionCall { name: Seq<char>, args: Seq<AstModel> },
    MethodCall { object: Box<AstModel>, method: Seq<char>, args: Seq<AstModel> },
    ArrayAccess { array: Box<AstModel>, index: Box<AstModel> },
    ArrayLiteral(Seq<AstModel>),
    PropertyAccess { object: Box<AstModel>, property: Seq<char> },
    Assignment { target: Box<AstModel>, value: Box<AstModel> },
    StringLiteral(Seq<char>),
    NumberLiteral(Seq<char>),
    BooleanLiteral(bool),
    Identifier(Seq<char>),
    ReturnStatement(Option<Box<AstModel>>),
    NewExpression { class_name: Seq<char>, args: Seq<AstModel> },
}

impl AstNode {
    /// The mathematical model of the node.
    pub open spec fn model(&self) -> AstModel
        decreases self,
    {
        match self {
            AstNode::Program(stmts) => AstModel::Program(AstNode::models(stmts@)),
            AstNode::VariableDeclaration { is_const, name, var_type, value } => {
                AstModel::VariableDeclaration {
                    is_const: *is_const,
                    name: name@,
                    var_type: var_type.model(),
                    value: Box::new(value.model()),
                }
            },
            AstNode::FunctionDeclaration { name, params, return_type, body, is_public } => {
                AstModel::FunctionDeclaration {
                    name: name@,
                    params: AstNode::params_model(params@),
                    return_type: return_type.model(),
                    body: AstNode::models(body@),
                    is_public: *is_public,
                }
            },
            AstNode::ClassDeclaration { name, fields, methods } => {
                AstModel::ClassDeclaration {
                    name: name@,
                    fields: AstNode::fields_model(fields@),
                    methods: AstNode::models(methods@),
                }
            },
            AstNode::IfStatement { condition, then_body, elseif_branches, else_body } => {
                AstModel::IfStatement {
                    condition: Box::new(condition.model()),
                    then_body: AstNode::models(then_body@),
                    elseif_branches: AstNode::branches_model(elseif_branches@),
                    else_body: match else_body {
                        Some(stmts) => Some(AstNode::models(stmts@)),
                        None => None,
                    },
                }
            },
            AstNode::WhileStatement { condition, body } => {
                AstModel::WhileStatement {
                    condition: Box::new(condition.model()),
                    body: AstNode::models(body@),
                }
            },
            AstNode::ForStatement { counter_var, condition, body } => {
                AstModel::ForStatement {
                    counter_var: counter_var@,
                    condition: Box::new(condition.model()),
                    body: AstNode::models(body@),
                }
            },
            AstNode::ForeachStatement { var_name, iterable, body } => {
                AstModel::ForeachStatement {
                    var_name: var_name@,
                    iterable: Box::new(iterable.model()),
                    body: AstNode::models(body@),
                }
            },
            AstNode::BinaryExpression { left, operator, right } => {
                AstModel::BinaryExpression {
                    left: Box::new(left.model()),
                    operator: *operator,
                    right: Box::new(right.model()),
                }
            },
            AstNode::UnaryExpression { operator, operand } => {
                AstModel::UnaryExpression {
                    operator: *operator,
                    operand: Box::new(operand.model()),
                }
            },
            AstNode::FunctionCall { name, args } => {
                AstModel::FunctionCall { name: name@, args: AstNode::models(args@) }
            },
            AstNode::MethodCall { object, method, args } => {
                AstModel::MethodCall {
                    object: Box::new(object.model()),
                    method: method@,
                    args: AstNode::models(args@),
                }
            },
            AstNode::ArrayAccess { array, index } => {
                AstModel::ArrayAccess {
                    array: Box::new(array.model()),
                    index: Box::new(index.model()),
                }
            },
            AstNode::ArrayLiteral(elements) => AstModel::ArrayLiteral(AstNode::models(elements@)),
            AstNode::PropertyAccess { object, property } => {
                AstModel::PropertyAccess { object: Box::new(object.model()), property: property@ }
            },
            AstNode::Assignment { target, value } => {
                AstModel::Assignment {
                    target: Box::new(target.model()),
                    value: Box::new(value.model()),
                }
            },
            AstNode::StringLiteral(s) => AstModel::StringLiteral(s@),
            AstNode::NumberLiteral(s) => AstModel::NumberLiteral(s@),
            AstNode::BooleanLiteral(b) => AstModel::BooleanLiteral(*b),
            AstNode::Identifier(s) => AstModel::Identifier(s@),
            AstNode::ReturnStatement(value) => {
                AstModel::ReturnStatement(
                    match value {
                        Some(e) => Some(Box::new(e.model())),
                        None => None,
                    },
                )
            },
            AstNode::NewExpression { class_name, args } => {
                AstModel::NewExpression { class_name: class_name@, args: AstNode::models(args@) }
            },
        }
    }

    /// The models of a list of nodes, in order.
    pub open spec fn models(nodes: Seq<AstNode>) -> Seq<AstModel>
        decreases nodes,
    {
        if nodes.len() == 0 {
            Seq::empty()
        } else {
            seq![nodes[0].model()] + AstNode::models(nodes.drop_first())
        }
    }

    /// The models of a parameter list.
    pub open spec fn params_model(params: Seq<(String, KururiType)>) -> Seq<(Seq<char>, TypeModel)> {
        params.map_values(|p: (String, KururiType)| (p.0@, p.1.model()))
    }

    /// The models of a class field list.
    pub open spec fn fields_model(fields: Seq<(String, KururiType, AstNode)>) -> Seq<
        (Seq<char>, TypeModel, AstModel),
    >
        decreases fields,
    {
        if fields.len() == 0 {
            Seq::empty()
        } else {
            seq![(fields[0].0@, fields[0].1.model(), fields[0].2.model())] + AstNode::fields_model(
                fields.drop_first(),
            )
        }
    }

    /// The models of an `elseif` branch list.
    pub open spec fn branches_model(branches: Seq<(AstNode, Vec<AstNode>)>) -> Seq<
        (AstModel, Seq<AstModel>),
    >
        decreases branches,
    {
        if branches.len() == 0 {
            Seq::empty()
        } else {
            seq![(branches[0].0.model(), AstNode::models(branches[0].1@))]
                + AstNode::branches_model(branches.drop_first())
        }
    }
}

impl DeepView for AstNode {
    type V = AstModel;

    open spec fn deep_view(&self) -> AstModel {
        self.model()
    }
}

/// Node-list models agree with element-wise models.
pub proof fn lemma_models_index(nodes: Seq<AstNode>)
    ensures
        AstNode::models(nodes).len() == nodes.len(),
        forall|i: int|
            0 <= i < nodes.len() ==> #[trigger] AstNode::models(nodes)[i] == nodes[i].model(),
    decreases nodes,
{
    if nodes.len() > 0 {
        lemma_models_index(nodes.drop_first());
        assert forall|i: int| 0 <= i < nodes.len() implies #[trigger] AstNode::models(nodes)[i]
            == nodes[i].model() by {
            if i > 0 {
                assert(AstNode::models(nodes)[i] == AstNode::models(nodes.drop_first())[i - 1]);
                assert(nodes.drop_first()[i - 1] == nodes[i]);
            }
        }
    }
}

/// A vector's deep view is the model list of its elements.
pub proof fn lemma_models_is_deep_view(v: Vec<AstNode>)
    ensures
        AstNode::models(v@) == v.deep_view(),
{
    lemma_models_index(v@);
    assert(AstNode::models(v@) =~= v.deep_view());
}


impl AstNode {
    /// An owned copy of the node with the same model.
    pub fn duplicate(&self) -> (r: AstNode)
        ensures
            r.model() == self.model(),
        decreases self,
    {
        match self {
            AstNode::Program(stmts) => AstNode::Program(duplicate_list(stmts)),
            AstNode::VariableDeclaration { is_const, name, var_type, value } => {
                AstNode::VariableDeclaration {
                    is_const: *is_const,
                    name: name.clone(),
                    var_type: var_type.duplicate(),
                    value: Box::new(value.duplicate()),
                }
            },
            AstNode::FunctionDeclaration { name, params, return_type, body, is_public } => {
                AstNode::FunctionDeclaration {
                    name: name.clone(),
                    params: duplicate_params(params),
                    return_type: return_type.duplicate(),
                    body: duplicate_list(body),
                    is_public: *is_public,
                }
            },
            AstNode::ClassDeclaration { name, fields, methods } => {
                AstNode::ClassDeclaration {
                    name: name.clone(),
                    fields: duplicate_fields(fields),
                    methods: duplicate_list(methods),
                }
            },
            AstNode::IfStatement { condition, then_body, elseif_branches, else_body } => {
                AstNode::IfStatement {
                    condition: Box::new(condition.duplicate()),
                    then_body: duplicate_list(then_body),
                    elseif_branches: duplicate_branches(elseif_branches),
                    else_body: match else_body {
                        Some(stmts) => Some(duplicate_list(stmts)),
                        None => None,
                    },
                }
            },
            AstNode::WhileStatement { condition, body } => {
                AstNode::WhileStatement {
                    condition: Box::new(condition.duplicate()),
                    body: duplicate_list(body),
                }
            },
            AstNode::ForStatement { counter_var, condition, body } => {
                AstNode::ForStatement {
                    counter_var: counter_var.clone(),
                    condition: Box::new(condition.duplicate()),
                    body: duplicate_list(body),
                }
            },
            AstNode::ForeachStatement { var_name, iterable, body } => {
                AstNode::ForeachStatement {
                    var_name: var_name.clone(),
                    iterable: Box::new(iterable.duplicate()),
                    body: duplicate_list(body),
                }
            },
            AstNode::BinaryExpression { left, operator, right } => {
                AstNode::BinaryExpression {
                    left: Box::new(left.duplicate()),
                    operator: operator.duplicate(),
                    right: Box::new(right.duplicate()),
                }
            },
            AstNode::UnaryExpression { operator, operand } => {
                AstNode::UnaryExpression {
                    operator: operator.duplicate(),
                    operand: Box::new(operand.duplicate()),
                }
            },
            AstNode::FunctionCall { name, args } => {
                AstNode::FunctionCall { name: name.clone(), args: duplicate_list(args) }
            },
            AstNode::MethodCall { object, method, args } => {
                AstNode::MethodCall {
                    object: Box::new(object.duplicate()),
                    method: method.clone(),
                    args: duplicate_list(args),
                }
            },
            AstNode::ArrayAccess { array, index } => {
                AstNode::ArrayAccess {
                    array: Box::new(array.duplicate()),
                    index: Box::new(index.duplicate()),
                }
            },
            AstNode::ArrayLiteral(elements) => AstNode::ArrayLiteral(duplicate_list(elements)),
            AstNode::PropertyAccess { object, property } => {
                AstNode::PropertyAccess {
                    object: Box::new(object.duplicate()),
                    property: property.clone(),
                }
            },
            AstNode::Assignment { target, value } => {
                AstNode::Assignment {
                    target: Box::new(target.duplicate()),
                    value: Box::new(value.duplicate()),
                }
            },
            AstNode::StringLiteral(s) => AstNode::StringLiteral(s.clone()),
            AstNode::NumberLiteral(s) => AstNode::NumberLiteral(s.clone()),
            AstNode::BooleanLiteral(b) => AstNode::BooleanLiteral(*b),
            AstNode::Identifier(s) => AstNode::Identifier(s.clone()),
            AstNode::ReturnStatement(value) => {
                AstNode::ReturnStatement(
                    match value {
                        Some(e) => Some(Box::new(e.duplicate())),
                        None => None,
                    },
                )
            },
            AstNode::NewExpression { class_name, args } => {
                AstNode::NewExpression {
                    class_name: class_name.clone(),
                    args: duplicate_list(args),
                }
            },
        }
    }
}

/// An owned copy of a node list, element for element.
pub fn duplicate_list(v: &Vec<AstNode>) -> (r: Vec<AstNode>)
    ensures
        AstNode::models(r@) == AstNode::models(v@),
        r.deep_view() == v.deep_view(),
    decreases v,
{
    let mut r: Vec<AstNode> = Vec::new();
    let n = v.len();
    let mut i: usize = 0;
    while i < n
        invariant
            n == v@.len(),
            i <= n,
            r@.len() == i,
            forall|k: int| 0 <= k < i ==> (#[trigger] r@[k]).model() == v@[k].model(),
        decreases n - i,
    {
        proof {
            assert(decreases_to!(v => v@[i as int]));
        }
        r.push(v[i].duplicate());
        i = i + 1;
    }
    proof {
        lemma_models_index(r@);
        lemma_models_index(v@);
        assert(AstNode::models(r@) =~= AstNode::models(v@));
        assert(r.deep_view() =~= v.deep_view());
    }
    r
}

/// An owned copy of a parameter list.
pub fn duplicate_params(v: &Vec<(String, KururiType)>) -> (r: Vec<(String, KururiType)>)
    ensures
        AstNode::params_model(r@) == AstNode::params_model(v@),
{
    let mut r: Vec<(String, KururiType)> = Vec::new();
    let n = v.len();
    let mut i: usize = 0;
    while i < n
        invariant
            n == v@.len(),
            i <= n,
            r@.len() == i,
            forall|k: int|
                0 <= k < i ==> (#[trigger] r@[k]).0@ == v@[k].0@ && r@[k].1.model()
                    == v@[k].1.model(),
        decreases n - i,
    {
        let name = v[i].0.clone();
        let ty = v[i].1.duplicate();
        r.push((name, ty));
        i = i + 1;
    }
    proof {
        assert(AstNode::params_model(r@) =~= AstNode::params_model(v@));
    }
    r
}

/// An owned copy of a class field list.
pub fn duplicate_fields(v: &Vec<(String, KururiType, AstNode)>) -> (r: Vec<
    (String, KururiType, AstNode),
>)
    ensures
        AstNode::fields_model(r@) == AstNode::fields_model(v@),
    decreases v,
{
    let mut r: Vec<(String, KururiType, AstNode)> = Vec::new();
    let n = v.len();
    let mut i: usize = 0;
    while i < n
        invariant
            n == v@.len(),
            i <= n,
            r@.len() == i,
            forall|k: int|
                0 <= k < i ==> (#[trigger] r@[k]).0@ == v@[k].0@ && r@[k].1.model() == v@[k].1.model()
                    && r@[k].2.model() == v@[k].2.model(),
        decreases n - i,
    {
        proof {
            assert(decreases_to!(v => v@[i as int]));
            assert(decreases_to!(v@[i as int] => v@[i as int].2));
        }
        let name = v[i].0.clone();
        let ty = v[i].1.duplicate();
        let node = v[i].2.duplicate();
        r.push((name, ty, node));
        i = i + 1;
    }
    proof {
        lemma_fields_model_pointwise(r@, v@);
    }
    r
}

/// Field lists that agree pointwise on their models have equal models.
proof fn lemma_fields_model_pointwise(a: Seq<(String, KururiType, AstNode)>, b: Seq<(String, KururiType, AstNode)>)
    requires
        a.len() == b.len(),
        forall|k: int|
            0 <= k < a.len() ==> (#[trigger] a[k]).0@ == b[k].0@ && a[k].1.model() == b[k].1.model()
                && a[k].2.model() == b[k].2.model(),
    ensures
        AstNode::fields_model(a) == AstNode::fields_model(b),
    decreases a,
{
    if a.len() > 0 {
        lemma_fields_model_pointwise(a.drop_first(), b.drop_first());
        assert(AstNode::fields_model(a) =~= AstNode::fields_model(b));
    } else {
        assert(AstNode::fields_model(a) =~= AstNode::fields_model(b));
    }
}

/// An owned copy of an `elseif` branch list.
pub fn duplicate_branches(v: &Vec<(AstNode, Vec<AstNode>)>) -> (r: Vec<(AstNode, Vec<AstNode>)>)
    ensures
        AstNode::branches_model(r@) == AstNode::branches_model(v@),
    decreases v,
{
    let mut r: Vec<(AstNode, Vec<AstNode>)> = Vec::new();
    let n = v.len();
    let mut i: usize = 0;
    while i < n
        invariant
            n == v@.len(),
            i <= n,
            r@.len() == i,
            forall|k: int|
                0 <= k < i ==> (#[trigger] r@[k]).0.model() == v@[k].0.model()
                    && AstNode::models(r@[k].1@) == AstNode::models(v@[k].1@),
        decreases n - i,
    {
        proof {
            assert(decreases_to!(v => v@[i as int]));
            assert(decreases_to!(v@[i as int] => v@[i as int].0));
            assert(decreases_to!(v@[i as int] => v@[i as int].1));
        }
        let cond = v[i].0.duplicate();
        let body = duplicate_list(&v[i].1);
        r.push((cond, body));
        i = i + 1;
    }
    proof {
        lemma_branches_model_pointwise(r@, v@);
    }
    r
}

/// Branch lists that agree pointwise on their models have equal models.
proof fn lemma_branches_model_pointwise(a: Seq<(AstNode, Vec<AstNode>)>, b: Seq<(AstNode, Vec<AstNode>)>)
    requires
        a.len() == b.len(),
        forall|k: int|
            0 <= k < a.len() ==> (#[trigger] a[k]).0.model() == b[k].0.model() && AstNode::models(
                a[k].1@,
            ) == AstNode::models(b[k].1@),
    ensures
        AstNode::branches_model(a) == AstNode::branches_model(b),
    decreases a,
{
    if a.len() > 0 {
        lemma_branches_model_pointwise(a.drop_first(), b.drop_first());
        assert(AstNode::branches_model(a) =~= AstNode::branches_model(b));
    } else {
        assert(AstNode::branches_model(a) =~= AstNode::branches_model(b));
    }
}


/// Branch-list models agree with element-wise models.
pub proof fn lemma_branches_model_index(branches: Seq<(AstNode, Vec<AstNode>)>)
    ensures
        AstNode::branches_model(branches).len() == branches.len(),
        forall|i: int|
            0 <= i < branches.len() ==> #[trigger] AstNode::branches_model(branches)[i] == (
                branches[i].0.model(),
                AstNode::models(branches[i].1@),
            ),
    decreases branches,
{
    if branches.len() > 0 {
        lemma_branches_model_index(branches.drop_first());
        assert forall|i: int| 0 <= i < branches.len() implies #[trigger] AstNode::branches_model(
            branches,
        )[i] == (branches[i].0.model(), AstNode::models(branches[i].1@)) by {
            if i > 0 {
                assert(AstNode::branches_model(branches)[i] == AstNode::branches_model(
                    branches.drop_first(),
                )[i - 1]);
                assert(branches.drop_first()[i - 1] == branches[i]);
            }
        }
    }
}


/// Field-list models agree with element-wise models.
pub proof fn lemma_fields_model_index(fields: Seq<(String, KururiType, AstNode)>)
    ensures
        AstNode::fields_model(fields).len() == fields.len(),
        forall|i: int|
            0 <= i < fields.len() ==> #[trigger] AstNode::fields_model(fields)[i] == (
                fields[i].0@,
                fields[i].1.model(),
                fields[i].2.model(),
            ),
    decreases fields,
{
    if fields.len() > 0 {
        lemma_fields_model_index(fields.drop_first());
        assert forall|i: int| 0 <= i < fields.len() implies #[trigger] AstNode::fields_model(
            fields,
        )[i] == (fields[i].0@, fields[i].1.model(), fields[i].2.model()) by {
            if i > 0 {
                assert(AstNode::fields_model(fields)[i] == AstNode::fields_model(
                    fields.drop_first(),
                )[i - 1]);
                assert(fields.drop_first()[i - 1] == fields[i]);
            }
        }
    }
}

} // verus!
