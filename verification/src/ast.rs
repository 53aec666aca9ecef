//! The syntax tree that the parser builds, and its mathematical model: each
//! node's view replaces strings by their characters and vectors by sequences.
use vstd::prelude::*;

verus! {

broadcast use {vstd::std_specs::vec::group_vec_axioms, vstd::seq::group_seq_axioms};

#[derive(Debug, PartialEq)]
pub struct Ident {
    pub name: String,
}

impl Ident {
    pub fn new(name: &str) -> (r: Ident)
        ensures
            r.name@ == name@,
    {
        Ident { name: crate::text::owned(name) }
    }

    pub fn str(&self) -> (r: &str)
        ensures
            r@ == self.name@,
    {
        self.name.as_str()
    }

    pub fn string(&self) -> (r: String)
        ensures
            r@ == self.name@,
    {
        self.name.clone()
    }
}

#[derive(Debug, PartialEq)]
pub enum Type {
    /// `*T`
    Ptr(Box<Type>),
    /// `*const T`
    ConstPtr(Box<Type>),
    Path(PathExpr),
    /// `[N]T`
    Array(usize, Box<Type>),
}

#[derive(Debug, PartialEq)]
pub struct PathExpr {
    pub segments: Vec<Segment>,
}

#[derive(Debug, PartialEq)]
pub struct Segment {
    pub name: Ident,
    pub generics: Option<Vec<Type>>,
}

#[derive(Debug, PartialEq)]
pub enum Expr {
    Value(ExprValue),
    BinaryOp { left: Box<Expr>, op: Operator, right: Box<Expr> },
    UnaryOp { op: Operator, expr: Box<Expr> },
    Call(ExprCall),
    Access(ExprAccess),
    Path(PathExpr),
    Init(ExprInit),
    Assign(ExprAssign),
    If(ExprIf),
    Loop(Block),
}

#[derive(Debug, PartialEq)]
pub struct ExprAssign {
    pub left: Box<Expr>,
    pub kind: AssignKind,
    pub right: Box<Expr>,
}

#[derive(Debug, Clone, Copy, PartialEq, Eq, Structural)]
pub enum AssignKind {
    /// `=`
    Equal,
    /// `+=`
    AddEqual,
    /// `-=`
    SubEqual,
    /// `*=`
    MulEqual,
    /// `/=`
    DivEqual,
}

#[derive(Debug, PartialEq)]
pub struct ExprInit {
    pub path: PathExpr,
    pub fields: Vec<ExprInitField>,
}

#[derive(Debug, PartialEq)]
pub struct ExprInitField {
    pub name: Ident,
    pub value: Box<Expr>,
}

#[derive(Debug, PartialEq)]
pub struct ExprIf {
    pub condition: Box<Expr>,
    pub then_branch: Block,
    pub else_branch: Option<Block>,
}

#[derive(Debug, PartialEq)]
pub enum ExprValue {
    /// The literal's text, with any suffix, as in `123i32`.
    Integer(String),
    Float(String),
    Bool(bool),
    /// The literal's text, quotes included.
    String(String),
}

#[derive(Debug, PartialEq)]
pub struct ExprAccess {
    pub expr: Box<Expr>,
    pub segment: Segment,
}

#[derive(Debug, PartialEq)]
pub struct ExprCall {
    pub expr: Box<Expr>,
    pub args: Vec<Expr>,
}

#[derive(Debug, Clone, Copy, PartialEq, Eq, Structural)]
pub enum Operator {
    /// `+`
    Add,
    /// `-`
    Sub,
    /// `*`
    Mul,
    /// `/`
    Div,
    /// unary `*`
    Deref,
    /// unary `&`
    Ref,
    /// unary `-`
    Neg,
    /// unary `!`
    Not,
    /// `==`
    Equal,
    /// `!=`
    NotEqual,
    /// `<`
    Less,
    /// `>`
    Greater,
    /// `<=`
    LessEqual,
    /// `>=`
    GreaterEqual,
    /// `&&`
    And,
    /// `||`
    Or,
}

/// The verb that error messages use for an operator.
/// How each assignment is written in the source.
pub open spec fn assign_spelling(k: AssignKind) -> Seq<char> {
    match k {
        AssignKind::Equal => seq!['='],
        AssignKind::AddEqual => seq!['+', '='],
        AssignKind::SubEqual => seq!['-', '='],
        AssignKind::MulEqual => seq!['*', '='],
        AssignKind::DivEqual => seq!['/', '='],
    }
}

/// The keyword that introduces each kind of local.
pub open spec fn binding_spelling(b: Binding) -> Seq<char> {
    match b {
        Binding::Let => "let"@,
        Binding::Var => "var"@,
        Binding::Const => "const"@,
    }
}

/// How each operator is written in the source.
pub open spec fn operator_spelling(op: Operator) -> Seq<char> {
    match op {
        Operator::Add => seq!['+'],
        Operator::Sub => seq!['-'],
        Operator::Mul => seq!['*'],
        Operator::Div => seq!['/'],
        Operator::Deref => seq!['*'],
        Operator::Ref => seq!['&'],
        Operator::Neg => seq!['-'],
        Operator::Not => seq!['!'],
        Operator::Equal => seq!['=', '='],
        Operator::NotEqual => seq!['!', '='],
        Operator::Less => seq!['<'],
        Operator::Greater => seq!['>'],
        Operator::LessEqual => seq!['<', '='],
        Operator::GreaterEqual => seq!['>', '='],
        Operator::And => seq!['&', '&'],
        Operator::Or => seq!['|', '|'],
    }
}

pub open spec fn operator_name(op: Operator) -> Seq<char> {
    match op {
        Operator::Add => "add"@,
        Operator::Div => "divide"@,
        Operator::Sub => "subtract"@,
        Operator::Mul => "divde"@,
        Operator::And | Operator::Greater | Operator::Equal | Operator::Less | Operator::GreaterEqual
        | Operator::LessEqual | Operator::NotEqual | Operator::Or => "compare"@,
        Operator::Deref => "dereference"@,
        Operator::Neg => "negate"@,
        Operator::Not => "invert"@,
        Operator::Ref => "get reference"@,
    }
}

impl Operator {
    pub fn name(&self) -> (r: &'static str)
        ensures
            r@ == operator_name(*self),
    {
        match self {
            Operator::Add => "add",
            Operator::Div => "divide",
            Operator::Sub => "subtract",
            Operator::Mul => "divde",
            Operator::And | Operator::Greater | Operator::Equal | Operator::Less
            | Operator::GreaterEqual | Operator::LessEqual | Operator::NotEqual | Operator::Or => "compare",
            Operator::Deref => "dereference",
            Operator::Neg => "negate",
            Operator::Not => "invert",
            Operator::Ref => "get reference",
        }
    }
}

#[derive(Debug, PartialEq)]
pub struct Block {
    pub statements: Vec<Stmt>,
}

#[derive(Debug, PartialEq)]
pub enum Stmt {
    Expr(Expr),
    Defer(Expr),
    Return(Option<Expr>),
    Break,
    Continue,
    Local(Local),
}

#[derive(Debug, PartialEq)]
pub struct Local {
    pub binding: Binding,
    pub name: Ident,
    pub var_type: Option<Type>,
    pub initializer: Option<Box<Expr>>,
}

#[derive(Debug, Clone, Copy, PartialEq, Eq, Structural)]
pub enum Binding {
    Let,
    Var,
    Const,
}

#[derive(Debug, PartialEq)]
pub struct FnDecl {
    pub signature: FnSignature,
    pub block: Block,
}

#[derive(Debug, PartialEq)]
pub struct FnSignature {
    pub name: Ident,
    pub generics: Option<GenericParams>,
    pub params: Vec<FnParam>,
    pub return_type: Option<Type>,
}

#[derive(Debug, PartialEq)]
pub struct FnParam {
    pub name: Ident,
    pub ty: Type,
}

#[derive(Debug, PartialEq)]
pub struct GenericParams(pub Vec<GenericParam>);

#[derive(Debug, PartialEq)]
pub struct GenericParam {
    pub name: Ident,
    pub bound: Option<Type>,
}

#[derive(Debug, PartialEq)]
pub struct TypeDecl {
    pub name: Ident,
    pub generics: Option<GenericParams>,
    pub body: TypeBody,
}

#[derive(Debug, PartialEq)]
pub enum TypeBody {
    Struct(Vec<StructField>),
    Alias(Type),
    Trait(Vec<TraitMethod>),
    Enum(Vec<EnumValue>),
}

#[derive(Debug, PartialEq)]
pub struct EnumValue {
    pub name: Ident,
}

#[derive(Debug, PartialEq)]
pub struct StructField {
    pub name: Ident,
    pub field_type: Type,
}

#[derive(Debug, PartialEq)]
pub struct TraitMethod {
    pub signature: FnSignature,
}

#[derive(Debug, PartialEq)]
pub struct ImportDecl {
    pub path: Vec<Ident>,
}

#[derive(Debug, PartialEq)]
pub enum Decl {
    Fn(FnDecl),
    Type(TypeDecl),
    Import(ImportDecl),
    Pub(Box<Decl>),
}

#[derive(Debug, PartialEq)]
pub struct Unit {
    pub decls: Vec<Decl>,
}

// ----- The model of the tree -----
pub enum TypeModel {
    Ptr(Box<TypeModel>),
    ConstPtr(Box<TypeModel>),
    Path(PathModel),
    Array(usize, Box<TypeModel>),
}

pub struct PathModel {
    pub segments: Seq<SegmentModel>,
}

pub struct SegmentModel {
    pub name: Seq<char>,
    pub generics: Option<Seq<TypeModel>>,
}

pub enum ValueModel {
    Integer(Seq<char>),
    Float(Seq<char>),
    Bool(bool),
    String(Seq<char>),
}

pub enum ExprModel {
    Value(ValueModel),
    BinaryOp { left: Box<ExprModel>, op: Operator, right: Box<ExprModel> },
    UnaryOp { op: Operator, expr: Box<ExprModel> },
    Call { callee: Box<ExprModel>, args: Seq<ExprModel> },
    Access { base: Box<ExprModel>, segment: SegmentModel },
    Path(PathModel),
    Init { path: PathModel, fields: Seq<(Seq<char>, ExprModel)> },
    Assign { left: Box<ExprModel>, kind: AssignKind, right: Box<ExprModel> },
    If { condition: Box<ExprModel>, then_branch: BlockModel, else_branch: Option<BlockModel> },
    Loop(BlockModel),
}

pub struct BlockModel {
    pub statements: Seq<StmtModel>,
}

pub enum StmtModel {
    Expr(ExprModel),
    Defer(ExprModel),
    Return(Option<ExprModel>),
    Break,
    Continue,
    Local {
        binding: Binding,
        name: Seq<char>,
        var_type: Option<TypeModel>,
        initializer: Option<ExprModel>,
    },
}

pub struct GenericModel {
    pub name: Seq<char>,
    pub bound: Option<TypeModel>,
}

pub struct SignatureModel {
    pub name: Seq<char>,
    pub generics: Option<Seq<GenericModel>>,
    pub params: Seq<(Seq<char>, TypeModel)>,
    pub return_type: Option<TypeModel>,
}

pub struct FnDeclModel {
    pub signature: SignatureModel,
    pub block: BlockModel,
}

pub enum TypeBodyModel {
    Struct(Seq<(Seq<char>, TypeModel)>),
    Alias(TypeModel),
    Trait(Seq<SignatureModel>),
    Enum(Seq<Seq<char>>),
}

pub struct TypeDeclModel {
    pub name: Seq<char>,
    pub generics: Option<Seq<GenericModel>>,
    pub body: TypeBodyModel,
}

pub enum DeclModel {
    Fn(FnDeclModel),
    Type(TypeDeclModel),
    Import(Seq<Seq<char>>),
    Pub(Box<DeclModel>),
}

// ----- Views -----
pub open spec fn types_model(s: Seq<Type>) -> Seq<TypeModel>
    decreases s,
{
    if s.len() == 0 {
        seq![]
    } else {
        types_model(s.drop_last()).push(type_model(s.last()))
    }
}

pub open spec fn segments_model(s: Seq<Segment>) -> Seq<SegmentModel>
    decreases s,
{
    if s.len() == 0 {
        seq![]
    } else {
        segments_model(s.drop_last()).push(segment_model(s.last()))
    }
}

pub open spec fn type_model(t: Type) -> TypeModel
    decreases t,
{
    match t {
        Type::Ptr(b) => TypeModel::Ptr(Box::new(type_model(*b))),
        Type::ConstPtr(b) => TypeModel::ConstPtr(Box::new(type_model(*b))),
        Type::Path(p) => TypeModel::Path(path_model(p)),
        Type::Array(n, b) => TypeModel::Array(n, Box::new(type_model(*b))),
    }
}

pub open spec fn path_model(p: PathExpr) -> PathModel
    decreases p,
{
    PathModel { segments: segments_model(p.segments@) }
}

pub open spec fn segment_model(s: Segment) -> SegmentModel
    decreases s,
{
    SegmentModel {
        name: s.name.name@,
        generics: match s.generics {
            Some(g) => Some(types_model(g@)),
            None => None,
        },
    }
}

pub open spec fn value_model(v: ExprValue) -> ValueModel {
    match v {
        ExprValue::Integer(s) => ValueModel::Integer(s@),
        ExprValue::Float(s) => ValueModel::Float(s@),
        ExprValue::Bool(b) => ValueModel::Bool(b),
        ExprValue::String(s) => ValueModel::String(s@),
    }
}

pub open spec fn exprs_model(s: Seq<Expr>) -> Seq<ExprModel>
    decreases s,
{
    if s.len() == 0 {
        seq![]
    } else {
        exprs_model(s.drop_last()).push(expr_model(s.last()))
    }
}

pub open spec fn fields_model(s: Seq<ExprInitField>) -> Seq<(Seq<char>, ExprModel)>
    decreases s,
{
    if s.len() == 0 {
        seq![]
    } else {
        fields_model(s.drop_last()).push((s.last().name.name@, expr_model(*s.last().value)))
    }
}

pub open spec fn stmts_model(s: Seq<Stmt>) -> Seq<StmtModel>
    decreases s,
{
    if s.len() == 0 {
        seq![]
    } else {
        stmts_model(s.drop_last()).push(stmt_model(s.last()))
    }
}

pub open spec fn block_model(b: Block) -> BlockModel
    decreases b,
{
    BlockModel { statements: stmts_model(b.statements@) }
}

pub open spec fn expr_model(e: Expr) -> ExprModel
    decreases e,
{
    match e {
        Expr::Value(v) => ExprModel::Value(value_model(v)),
        Expr::BinaryOp { left, op, right } => ExprModel::BinaryOp {
            left: Box::new(expr_model(*left)),
            op,
            right: Box::new(expr_model(*right)),
        },
        Expr::UnaryOp { op, expr } => ExprModel::UnaryOp { op, expr: Box::new(expr_model(*expr)) },
        Expr::Call(c) => ExprModel::Call {
            callee: Box::new(expr_model(*c.expr)),
            args: exprs_model(c.args@),
        },
        Expr::Access(a) => ExprModel::Access {
            base: Box::new(expr_model(*a.expr)),
            segment: segment_model(a.segment),
        },
        Expr::Path(p) => ExprModel::Path(path_model(p)),
        Expr::Init(i) => ExprModel::Init { path: path_model(i.path), fields: fields_model(i.fields@) },
        Expr::Assign(a) => ExprModel::Assign {
            left: Box::new(expr_model(*a.left)),
            kind: a.kind,
            right: Box::new(expr_model(*a.right)),
        },
        Expr::If(i) => ExprModel::If {
            condition: Box::new(expr_model(*i.condition)),
            then_branch: block_model(i.then_branch),
            else_branch: match i.else_branch {
                Some(b) => Some(block_model(b)),
                None => None,
            },
        },
        Expr::Loop(b) => ExprModel::Loop(block_model(b)),
    }
}

pub open spec fn stmt_model(s: Stmt) -> StmtModel
    decreases s,
{
    match s {
        Stmt::Expr(e) => StmtModel::Expr(expr_model(e)),
        Stmt::Defer(e) => StmtModel::Defer(expr_model(e)),
        Stmt::Return(r) => StmtModel::Return(
            match r {
                Some(e) => Some(expr_model(e)),
                None => None,
            },
        ),
        Stmt::Break => StmtModel::Break,
        Stmt::Continue => StmtModel::Continue,
        Stmt::Local(l) => StmtModel::Local {
            binding: l.binding,
            name: l.name.name@,
            var_type: match l.var_type {
                Some(t) => Some(type_model(t)),
                None => None,
            },
            initializer: match l.initializer {
                Some(e) => Some(expr_model(*e)),
                None => None,
            },
        },
    }
}

pub open spec fn opt_type_model(t: Option<Type>) -> Option<TypeModel> {
    match t {
        Some(t) => Some(type_model(t)),
        None => None,
    }
}

pub open spec fn generics_model(s: Seq<GenericParam>) -> Seq<GenericModel>
    decreases s.len(),
{
    if s.len() == 0 {
        seq![]
    } else {
        generics_model(s.drop_last()).push(
            GenericModel { name: s.last().name.name@, bound: opt_type_model(s.last().bound) },
        )
    }
}

pub open spec fn opt_generics_model(g: Option<GenericParams>) -> Option<Seq<GenericModel>> {
    match g {
        Some(g) => Some(generics_model(g.0@)),
        None => None,
    }
}

pub open spec fn params_model(s: Seq<FnParam>) -> Seq<(Seq<char>, TypeModel)>
    decreases s.len(),
{
    if s.len() == 0 {
        seq![]
    } else {
        params_model(s.drop_last()).push((s.last().name.name@, type_model(s.last().ty)))
    }
}

pub open spec fn signature_model(s: FnSignature) -> SignatureModel {
    SignatureModel {
        name: s.name.name@,
        generics: opt_generics_model(s.generics),
        params: params_model(s.params@),
        return_type: opt_type_model(s.return_type),
    }
}

pub open spec fn fn_decl_model(f: FnDecl) -> FnDeclModel {
    FnDeclModel { signature: signature_model(f.signature), block: block_model(f.block) }
}

pub open spec fn struct_fields_model(s: Seq<StructField>) -> Seq<(Seq<char>, TypeModel)>
    decreases s.len(),
{
    if s.len() == 0 {
        seq![]
    } else {
        struct_fields_model(s.drop_last()).push(
            (s.last().name.name@, type_model(s.last().field_type)),
        )
    }
}

pub open spec fn methods_model(s: Seq<TraitMethod>) -> Seq<SignatureModel>
    decreases s.len(),
{
    if s.len() == 0 {
        seq![]
    } else {
        methods_model(s.drop_last()).push(signature_model(s.last().signature))
    }
}

pub open spec fn enum_values_model(s: Seq<EnumValue>) -> Seq<Seq<char>>
    decreases s.len(),
{
    if s.len() == 0 {
        seq![]
    } else {
        enum_values_model(s.drop_last()).push(s.last().name.name@)
    }
}

pub open spec fn type_body_model(b: TypeBody) -> TypeBodyModel {
    match b {
        TypeBody::Struct(f) => TypeBodyModel::Struct(struct_fields_model(f@)),
        TypeBody::Alias(t) => TypeBodyModel::Alias(type_model(t)),
        TypeBody::Trait(m) => TypeBodyModel::Trait(methods_model(m@)),
        TypeBody::Enum(v) => TypeBodyModel::Enum(enum_values_model(v@)),
    }
}

pub open spec fn type_decl_model(t: TypeDecl) -> TypeDeclModel {
    TypeDeclModel {
        name: t.name.name@,
        generics: opt_generics_model(t.generics),
        body: type_body_model(t.body),
    }
}

pub open spec fn idents_model(s: Seq<Ident>) -> Seq<Seq<char>>
    decreases s.len(),
{
    if s.len() == 0 {
        seq![]
    } else {
        idents_model(s.drop_last()).push(s.last().name@)
    }
}

pub open spec fn decl_model(d: Decl) -> DeclModel
    decreases d,
{
    match d {
        Decl::Fn(f) => DeclModel::Fn(fn_decl_model(f)),
        Decl::Type(t) => DeclModel::Type(type_decl_model(t)),
        Decl::Import(i) => DeclModel::Import(idents_model(i.path@)),
        Decl::Pub(b) => DeclModel::Pub(Box::new(decl_model(*b))),
    }
}

pub open spec fn decls_model(s: Seq<Decl>) -> Seq<DeclModel>
    decreases s.len(),
{
    if s.len() == 0 {
        seq![]
    } else {
        decls_model(s.drop_last()).push(decl_model(s.last()))
    }
}

} // verus!
