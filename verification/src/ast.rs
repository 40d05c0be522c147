//! The syntax tree of a CyborgPL program, and its mathematical view.

use vstd::prelude::*;
use crate::numeral::{decimal, decimal_text};
use crate::text::{text1, text2, text3, text4};

verus! {

/// The type of a variable, a parameter or a result.
#[derive(Debug, Clone, Copy, PartialEq, Eq, Hash, Structural)]
pub enum Type {
    /// A number that can hold whole or decimal values, stored as an IEEE-754 float of the given
    /// bit width (16, 32, 64 or 128). Different widths are different types when variables share
    /// a name.
    Num(u32),
    /// "Number word": a `Num` in every respect at run time, but a type of its own that also
    /// accepts literals such as `'1 million'`.
    NumW(u32),
    Bool,
    Str,
    /// An arbitrary-precision decimal. The precision is in bits and can be any positive number.
    BigNum(u32),
    /// An arbitrary-precision integer. It has no precision to choose.
    BigInt,
    /// A file path. It behaves like `Str` and is a type of its own for clarity only.
    File,
    /// A whole number of the given bit width (8, 16, 32 or 64).
    Int(u32),
    /// A growable array. Its elements are never arrays, so `Type` can stay `Copy`.
    Array(ElementType),
    Void,
}

/// The types an array can hold.
#[derive(Debug, Clone, Copy, PartialEq, Eq, Hash, Structural)]
pub enum ElementType {
    Num(u32),
    NumW(u32),
    Bool,
    Str,
    BigNum(u32),
    BigInt,
    File,
    Int(u32),
}

/// The type that an element type is.
pub open spec fn element_as_type(e: ElementType) -> Type {
    match e {
        ElementType::Num(w) => Type::Num(w),
        ElementType::NumW(w) => Type::NumW(w),
        ElementType::Bool => Type::Bool,
        ElementType::Str => Type::Str,
        ElementType::BigNum(p) => Type::BigNum(p),
        ElementType::BigInt => Type::BigInt,
        ElementType::File => Type::File,
        ElementType::Int(w) => Type::Int(w),
    }
}

/// The element type that `ty` is; `None` for an array (arrays are not nested) and for `Void`.
pub open spec fn element_of(ty: Type) -> Option<ElementType> {
    match ty {
        Type::Num(w) => Some(ElementType::Num(w)),
        Type::NumW(w) => Some(ElementType::NumW(w)),
        Type::Bool => Some(ElementType::Bool),
        Type::Str => Some(ElementType::Str),
        Type::BigNum(p) => Some(ElementType::BigNum(p)),
        Type::BigInt => Some(ElementType::BigInt),
        Type::File => Some(ElementType::File),
        Type::Int(w) => Some(ElementType::Int(w)),
        Type::Array(_) | Type::Void => None,
    }
}

impl ElementType {
    /// The type that this element type is.
    pub open spec fn spec_as_type(self) -> Type {
        element_as_type(self)
    }

    /// The type that this element type is.
    #[verifier::when_used_as_spec(spec_as_type)]
    pub fn as_type(self) -> (r: Type)
        ensures
            r == element_as_type(self),
    {
        match self {
            ElementType::Num(w) => Type::Num(w),
            ElementType::NumW(w) => Type::NumW(w),
            ElementType::Bool => Type::Bool,
            ElementType::Str => Type::Str,
            ElementType::BigNum(p) => Type::BigNum(p),
            ElementType::BigInt => Type::BigInt,
            ElementType::File => Type::File,
            ElementType::Int(w) => Type::Int(w),
        }
    }

    /// The element type that `ty` is; `None` for an array (arrays are not nested) and for `Void`.
    pub fn from_type(ty: Type) -> (r: Option<ElementType>)
        ensures
            r == element_of(ty),
    {
        match ty {
            Type::Num(w) => Some(ElementType::Num(w)),
            Type::NumW(w) => Some(ElementType::NumW(w)),
            Type::Bool => Some(ElementType::Bool),
            Type::Str => Some(ElementType::Str),
            Type::BigNum(p) => Some(ElementType::BigNum(p)),
            Type::BigInt => Some(ElementType::BigInt),
            Type::File => Some(ElementType::File),
            Type::Int(w) => Some(ElementType::Int(w)),
            Type::Array(_) | Type::Void => None,
        }
    }
}

/// `as_type` and `from_type` undo each other: an element type survives the way to its type and
/// back, and so does every type but an array and `Void`, which are no element types.
pub proof fn element_types_round_trip(e: ElementType, ty: Type)
    ensures
        element_of(element_as_type(e)) == Some(e),
        element_of(ty) is None <==> (ty is Array || ty is Void),
        element_of(ty) matches Some(back) ==> element_as_type(back) == ty,
{
}

pub const DEFAULT_NUM_PRECISION: u32 = 64;

pub const DEFAULT_BIGNUM_PRECISION: u32 = 256;

pub const DEFAULT_INT_PRECISION: u32 = 64;

/// A type with its precision in brackets.
pub open spec fn with_precision(name: Seq<char>, p: u32) -> Seq<char> {
    name + "[precision:"@ + decimal(p as nat) + "]"@
}

/// An element type the way it is written in a program.
pub open spec fn element_text(e: ElementType) -> Seq<char> {
    match e {
        ElementType::Num(w) => with_precision("num"@, w),
        ElementType::NumW(w) => with_precision("numw"@, w),
        ElementType::Bool => "bool"@,
        ElementType::Str => "str"@,
        ElementType::BigNum(p) => with_precision("bignum"@, p),
        ElementType::BigInt => "bigint"@,
        ElementType::File => "file"@,
        ElementType::Int(w) => with_precision("int"@, w),
    }
}

/// A type the way it is written in a program, for messages.
pub open spec fn type_text(ty: Type) -> Seq<char> {
    match ty {
        Type::Num(w) => with_precision("num"@, w),
        Type::NumW(w) => with_precision("numw"@, w),
        Type::Bool => "bool"@,
        Type::Str => "str"@,
        Type::BigNum(p) => with_precision("bignum"@, p),
        Type::BigInt => "bigint"@,
        Type::File => "file"@,
        Type::Int(w) => with_precision("int"@, w),
        Type::Array(e) => "array:"@ + element_text(e),
        Type::Void => "void"@,
    }
}

fn precision_text(name: &str, p: u32) -> (r: String)
    ensures
        r@ == with_precision(name@, p),
{
    let d: String = decimal_text(p as u64);
    let s: String = text3(name, "[precision:", &d);
    text2(&s, "]")
}

impl ElementType {
    /// The element type the way it is written in a program.
    pub fn to_text(self) -> (r: String)
        ensures
            r@ == element_text(self),
    {
        match self {
            ElementType::Num(w) => precision_text("num", w),
            ElementType::NumW(w) => precision_text("numw", w),
            ElementType::Bool => text1("bool"),
            ElementType::Str => text1("str"),
            ElementType::BigNum(p) => precision_text("bignum", p),
            ElementType::BigInt => text1("bigint"),
            ElementType::File => text1("file"),
            ElementType::Int(w) => precision_text("int", w),
        }
    }
}

impl Type {
    /// The type the way it is written in a program, for messages.
    pub fn to_text(self) -> (r: String)
        ensures
            r@ == type_text(self),
    {
        match self {
            Type::Num(w) => precision_text("num", w),
            Type::NumW(w) => precision_text("numw", w),
            Type::Bool => text1("bool"),
            Type::Str => text1("str"),
            Type::BigNum(p) => precision_text("bignum", p),
            Type::BigInt => text1("bigint"),
            Type::File => text1("file"),
            Type::Int(w) => precision_text("int", w),
            Type::Array(e) => {
                let t: String = e.to_text();
                text2("array:", &t)
            },
            Type::Void => text1("void"),
        }
    }
}

/// The name of an element type's variant, with its precision if it has one.
pub open spec fn element_name(e: ElementType) -> Seq<char> {
    match e {
        ElementType::Num(w) => "Num("@ + decimal(w as nat) + ")"@,
        ElementType::NumW(w) => "NumW("@ + decimal(w as nat) + ")"@,
        ElementType::Bool => "Bool"@,
        ElementType::Str => "Str"@,
        ElementType::BigNum(p) => "BigNum("@ + decimal(p as nat) + ")"@,
        ElementType::BigInt => "BigInt"@,
        ElementType::File => "File"@,
        ElementType::Int(w) => "Int("@ + decimal(w as nat) + ")"@,
    }
}

/// The name of a type's variant, with its precision or its element type if it has one.
pub open spec fn variant_name(ty: Type) -> Seq<char> {
    match ty {
        Type::Num(w) => "Num("@ + decimal(w as nat) + ")"@,
        Type::NumW(w) => "NumW("@ + decimal(w as nat) + ")"@,
        Type::Bool => "Bool"@,
        Type::Str => "Str"@,
        Type::BigNum(p) => "BigNum("@ + decimal(p as nat) + ")"@,
        Type::BigInt => "BigInt"@,
        Type::File => "File"@,
        Type::Int(w) => "Int("@ + decimal(w as nat) + ")"@,
        Type::Array(e) => "Array("@ + element_name(e) + ")"@,
        Type::Void => "Void"@,
    }
}

/// `name(n)`.
fn numbered(name: &str, n: u32) -> (r: String)
    ensures
        r@ == name@ + "("@ + decimal(n as nat) + ")"@,
{
    let d: String = decimal_text(n as u64);
    text4(name, "(", &d, ")")
}

impl ElementType {
    /// The name of the variant, with its precision if it has one.
    pub fn name(self) -> (r: String)
        ensures
            r@ == element_name(self),
    {
        proof {
            reveal_strlit("Num");
            reveal_strlit("Num(");
            reveal_strlit("NumW");
            reveal_strlit("NumW(");
            reveal_strlit("BigNum");
            reveal_strlit("BigNum(");
            reveal_strlit("Int");
            reveal_strlit("Int(");
            reveal_strlit("(");
            assert("Num"@ + "("@ =~= "Num("@);
            assert("NumW"@ + "("@ =~= "NumW("@);
            assert("BigNum"@ + "("@ =~= "BigNum("@);
            assert("Int"@ + "("@ =~= "Int("@);
        }
        match self {
            ElementType::Num(w) => numbered("Num", w),
            ElementType::NumW(w) => numbered("NumW", w),
            ElementType::Bool => text1("Bool"),
            ElementType::Str => text1("Str"),
            ElementType::BigNum(p) => numbered("BigNum", p),
            ElementType::BigInt => text1("BigInt"),
            ElementType::File => text1("File"),
            ElementType::Int(w) => numbered("Int", w),
        }
    }
}

impl Type {
    /// The name of the variant, with its precision or its element type if it has one.
    pub fn name(self) -> (r: String)
        ensures
            r@ == variant_name(self),
    {
        match self {
            Type::Array(e) => {
                let inner: String = e.name();
                text3("Array(", &inner, ")")
            },
            Type::Void => text1("Void"),
            other => match ElementType::from_type(other) {
                Some(e) => e.name(),
                None => text1("Void"),
            },
        }
    }
}

/// The operators between two values.
#[derive(Debug, Clone, Copy, PartialEq, Eq, Structural)]
pub enum BinOp {
    Add,
    Sub,
    Mul,
    Div,
    Pow,
    Tetration,
    Eq,
    Ne,
    Lt,
    Gt,
    Le,
    Ge,
    And,
    Or,
    /// `stch` ("stitch"): text concatenation. An operand that is not a `str` is converted to the
    /// text `print` would show for it.
    Concat,
}

/// An operator the way it is written in a program.
pub open spec fn binop_text(op: BinOp) -> Seq<char> {
    match op {
        BinOp::Add => "+"@,
        BinOp::Sub => "-"@,
        BinOp::Mul => "x"@,
        BinOp::Div => "/"@,
        BinOp::Pow => "xx"@,
        BinOp::Tetration => "xxx"@,
        BinOp::Eq => "=="@,
        BinOp::Ne => "not="@,
        BinOp::Lt => "<"@,
        BinOp::Gt => ">"@,
        BinOp::Le => "<="@,
        BinOp::Ge => ">="@,
        BinOp::And => "&&"@,
        BinOp::Or => "||"@,
        BinOp::Concat => "stch"@,
    }
}

impl BinOp {
    /// The operator the way it is written in a program.
    pub fn to_text(self) -> (r: String)
        ensures
            r@ == binop_text(self),
    {
        match self {
            BinOp::Add => text1("+"),
            BinOp::Sub => text1("-"),
            BinOp::Mul => text1("x"),
            BinOp::Div => text1("/"),
            BinOp::Pow => text1("xx"),
            BinOp::Tetration => text1("xxx"),
            BinOp::Eq => text1("=="),
            BinOp::Ne => text1("not="),
            BinOp::Lt => text1("<"),
            BinOp::Gt => text1(">"),
            BinOp::Le => text1("<="),
            BinOp::Ge => text1(">="),
            BinOp::And => text1("&&"),
            BinOp::Or => text1("||"),
            BinOp::Concat => text1("stch"),
        }
    }
}

/// The operators on one value.
#[derive(Debug, Clone, Copy, PartialEq, Eq, Structural)]
pub enum UnOp {
    Neg,
    Not,
    /// Postfix `!`.
    Factorial,
}

/// An operator the way it is written in a program.
pub open spec fn unop_text(op: UnOp) -> Seq<char> {
    match op {
        UnOp::Neg => "-"@,
        UnOp::Not => "not"@,
        UnOp::Factorial => "!"@,
    }
}

impl UnOp {
    /// The operator the way it is written in a program.
    pub fn to_text(self) -> (r: String)
        ensures
            r@ == unop_text(self),
    {
        match self {
            UnOp::Neg => text1("-"),
            UnOp::Not => text1("not"),
            UnOp::Factorial => text1("!"),
        }
    }
}

/// An expression.
#[derive(Debug)]
pub enum Expr {
    /// A number, as the text of its numeral: no digit of it is lost, however many there are.
    Num(String),
    Bool(bool),
    Str(String),
    /// `ref:var:TYPE 'name'`. A name can be shared by variables of different types, so the type
    /// tells them apart.
    Var(String, Type),
    Unary(UnOp, Box<Expr>),
    Binary(Box<Expr>, BinOp, Box<Expr>),
    Call(String, Vec<Expr>),
    /// `{(v1), (v2), ...}`. The element type comes from where the literal is stored.
    ArrayLiteral(Vec<Expr>),
    /// `ref:var:array:TYPE 'name'*(index)*`: one element, the first being number 1. The type is
    /// that of the array.
    ArrayIndex(String, Type, Box<Expr>),
    /// `(length*array*)`: the number of elements, as a `num`.
    Length(Box<Expr>),
}

/// One piece of a `print`: literal text, or a value to show.
#[derive(Debug)]
pub enum PrintSegment {
    Str(String),
    Expr(Expr),
}

/// A statement.
#[derive(Debug)]
pub enum Stmt {
    VarDecl(String, Type, Expr),
    /// `input:type 'name' [from*(source)*];` declares a variable and reads its value from the
    /// standard input or from the whole content of a file.
    Input(String, Type, Option<Expr>),
    /// `clock:num 'name';` declares a variable that holds the seconds since the program started.
    Clock(String, Type),
    Assign(String, Type, Expr),
    /// `ref:var:array:TYPE 'name'*(index)* = value;`. The type is that of the array.
    ArrayIndexAssign(String, Type, Expr, Expr),
    /// `append*(array), (value)*;`.
    Append(Expr, Expr),
    Return(Option<Expr>),
    /// `print*segments* [to*(dest)*];`, to the screen without a destination.
    Print(Vec<PrintSegment>, Option<Expr>),
    /// `overwrite*segments* [to*(dest)*];`, always to a file.
    Overwrite(Vec<PrintSegment>, Expr),
    /// `read*(source)*;` shows the whole content of a file.
    Read(Expr),
    ExprStmt(Expr),
    If(Expr, Vec<Stmt>, Option<Vec<Stmt>>),
    While(Expr, Vec<Stmt>),
}

/// Statements in order.
pub type Block = Vec<Stmt>;

/// A parameter of a function.
#[derive(Debug, Clone)]
pub struct Param {
    pub name: String,
    pub ty: Type,
}

/// A function.
#[derive(Debug)]
pub struct Function {
    pub name: String,
    pub params: Vec<Param>,
    pub return_type: Type,
    pub body: Vec<Stmt>,
}

/// A program.
#[derive(Debug)]
pub struct Program {
    pub functions: Vec<Function>,
    /// The statements between `START` and `END`.
    pub entry: Vec<Stmt>,
    /// The settings file that the program names with `linkto*("...")*;`.
    pub link_to: Option<String>,
}

// ---------------------------------------------------------------------------
// Views
// ---------------------------------------------------------------------------

/// The view of an expression.
pub enum ExprV {
    Num(Seq<char>),
    Bool(bool),
    Str(Seq<char>),
    Var(Seq<char>, Type),
    Unary(UnOp, Box<ExprV>),
    Binary(Box<ExprV>, BinOp, Box<ExprV>),
    Call(Seq<char>, Seq<ExprV>),
    ArrayLiteral(Seq<ExprV>),
    ArrayIndex(Seq<char>, Type, Box<ExprV>),
    Length(Box<ExprV>),
}

/// The view of a piece of a `print`.
pub enum SegmentV {
    Str(Seq<char>),
    Expr(ExprV),
}

/// The view of a statement.
pub enum StmtV {
    VarDecl(Seq<char>, Type, ExprV),
    Input(Seq<char>, Type, Option<ExprV>),
    Clock(Seq<char>, Type),
    Assign(Seq<char>, Type, ExprV),
    ArrayIndexAssign(Seq<char>, Type, ExprV, ExprV),
    Append(ExprV, ExprV),
    Return(Option<ExprV>),
    Print(Seq<SegmentV>, Option<ExprV>),
    Overwrite(Seq<SegmentV>, ExprV),
    Read(ExprV),
    ExprStmt(ExprV),
    If(ExprV, Seq<StmtV>, Option<Seq<StmtV>>),
    While(ExprV, Seq<StmtV>),
}

/// The view of a parameter.
pub struct ParamV {
    pub name: Seq<char>,
    pub ty: Type,
}

/// The view of a function.
pub struct FunctionV {
    pub name: Seq<char>,
    pub params: Seq<ParamV>,
    pub return_type: Type,
    pub body: Seq<StmtV>,
}

/// The view of a program.
pub struct ProgramV {
    pub functions: Seq<FunctionV>,
    pub entry: Seq<StmtV>,
    pub link_to: Option<Seq<char>>,
}

impl Expr {
    /// The view of this expression.
    pub open spec fn view(&self) -> ExprV
        decreases self,
    {
        match self {
            Expr::Num(t) => ExprV::Num(t@),
            Expr::Bool(b) => ExprV::Bool(*b),
            Expr::Str(s) => ExprV::Str(s@),
            Expr::Var(n, ty) => ExprV::Var(n@, *ty),
            Expr::Unary(op, e) => ExprV::Unary(*op, Box::new((**e).view())),
            Expr::Binary(l, op, r) => ExprV::Binary(Box::new((**l).view()), *op, Box::new((**r).view())),
            Expr::Call(n, args) => ExprV::Call(
                n@,
                Seq::new(args@.len(), |i: int| if 0 <= i < args@.len() { args@[i].view() } else { arbitrary() }),
            ),
            Expr::ArrayLiteral(es) => ExprV::ArrayLiteral(
                Seq::new(es@.len(), |i: int| if 0 <= i < es@.len() { es@[i].view() } else { arbitrary() }),
            ),
            Expr::ArrayIndex(n, ty, i) => ExprV::ArrayIndex(n@, *ty, Box::new((**i).view())),
            Expr::Length(e) => ExprV::Length(Box::new((**e).view())),
        }
    }
}

/// The views of expressions in order.
pub open spec fn exprs_view(es: Seq<Expr>) -> Seq<ExprV> {
    Seq::new(es.len(), |i: int| es[i].view())
}

/// The view of an expression that may be missing.
pub open spec fn expr_opt_view(e: Option<Expr>) -> Option<ExprV> {
    match e {
        Some(e) => Some(e.view()),
        None => None,
    }
}

/// The view of a call, and of an array literal, by way of the views of their parts.
pub proof fn lemma_exprs_view(e: Expr)
    ensures
        e matches Expr::Call(n, args) ==> e.view() == ExprV::Call(n@, exprs_view(args@)),
        e matches Expr::ArrayLiteral(es) ==> e.view() == ExprV::ArrayLiteral(exprs_view(es@)),
{
    match e {
        Expr::Call(_, args) => {
            assert(e.view()->Call_1 =~= exprs_view(args@));
        },
        Expr::ArrayLiteral(es) => {
            assert(e.view()->ArrayLiteral_0 =~= exprs_view(es@));
        },
        _ => {},
    }
}

impl PrintSegment {
    /// The view of this segment.
    pub open spec fn view(&self) -> SegmentV {
        match self {
            PrintSegment::Str(s) => SegmentV::Str(s@),
            PrintSegment::Expr(e) => SegmentV::Expr(e.view()),
        }
    }
}

/// The views of segments in order.
pub open spec fn segments_view(s: Seq<PrintSegment>) -> Seq<SegmentV> {
    Seq::new(s.len(), |i: int| s[i].view())
}

impl Stmt {
    /// The view of this statement.
    pub open spec fn view(&self) -> StmtV
        decreases self,
    {
        match self {
            Stmt::VarDecl(n, ty, e) => StmtV::VarDecl(n@, *ty, e.view()),
            Stmt::Input(n, ty, src) => StmtV::Input(n@, *ty, expr_opt_view(*src)),
            Stmt::Clock(n, ty) => StmtV::Clock(n@, *ty),
            Stmt::Assign(n, ty, e) => StmtV::Assign(n@, *ty, e.view()),
            Stmt::ArrayIndexAssign(n, ty, i, e) => StmtV::ArrayIndexAssign(n@, *ty, i.view(), e.view()),
            Stmt::Append(a, e) => StmtV::Append(a.view(), e.view()),
            Stmt::Return(e) => StmtV::Return(expr_opt_view(*e)),
            Stmt::Print(s, d) => StmtV::Print(segments_view(s@), expr_opt_view(*d)),
            Stmt::Overwrite(s, d) => StmtV::Overwrite(segments_view(s@), d.view()),
            Stmt::Read(e) => StmtV::Read(e.view()),
            Stmt::ExprStmt(e) => StmtV::ExprStmt(e.view()),
            Stmt::If(c, t, e) => StmtV::If(
                c.view(),
                Seq::new(t@.len(), |i: int| if 0 <= i < t@.len() { t@[i].view() } else { arbitrary() }),
                match e {
                    Some(b) => Some(
                        Seq::new(b@.len(), |i: int| if 0 <= i < b@.len() { b@[i].view() } else { arbitrary() }),
                    ),
                    None => None,
                },
            ),
            Stmt::While(c, b) => StmtV::While(
                c.view(),
                Seq::new(b@.len(), |i: int| if 0 <= i < b@.len() { b@[i].view() } else { arbitrary() }),
            ),
        }
    }
}

/// The views of statements in order.
pub open spec fn block_view(b: Seq<Stmt>) -> Seq<StmtV> {
    Seq::new(b.len(), |i: int| b[i].view())
}

/// The view of a block that may be missing.
pub open spec fn block_opt_view(b: Option<Vec<Stmt>>) -> Option<Seq<StmtV>> {
    match b {
        Some(b) => Some(block_view(b@)),
        None => None,
    }
}

/// The views of the statements that hold blocks, by way of the views of their blocks.
pub proof fn lemma_block_view(s: Stmt)
    ensures
        s matches Stmt::If(c, t, e) ==> s.view() == StmtV::If(c.view(), block_view(t@), block_opt_view(e)),
        s matches Stmt::While(c, b) ==> s.view() == StmtV::While(c.view(), block_view(b@)),
{
    match s {
        Stmt::If(c, t, e) => {
            assert(s.view()->If_1 =~= block_view(t@));
            match e {
                Some(b) => {
                    assert(s.view()->If_2->0 =~= block_view(b@));
                },
                None => {},
            }
        },
        Stmt::While(c, b) => {
            assert(s.view()->While_1 =~= block_view(b@));
        },
        _ => {},
    }
}

impl Param {
    /// The view of this parameter.
    pub open spec fn view(&self) -> ParamV {
        ParamV { name: self.name@, ty: self.ty }
    }
}

/// The views of parameters in order.
pub open spec fn params_view(ps: Seq<Param>) -> Seq<ParamV> {
    Seq::new(ps.len(), |i: int| ps[i].view())
}

impl Function {
    /// The view of this function.
    pub open spec fn view(&self) -> FunctionV {
        FunctionV {
            name: self.name@,
            params: params_view(self.params@),
            return_type: self.return_type,
            body: block_view(self.body@),
        }
    }
}

/// The views of functions in order.
pub open spec fn functions_view(fs: Seq<Function>) -> Seq<FunctionV> {
    Seq::new(fs.len(), |i: int| fs[i].view())
}

impl Program {
    /// The view of this program.
    pub open spec fn view(&self) -> ProgramV {
        ProgramV {
            functions: functions_view(self.functions@),
            entry: block_view(self.entry@),
            link_to: match self.link_to {
                Some(s) => Some(s@),
                None => None,
            },
        }
    }
}

} // verus!
