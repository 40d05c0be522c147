//! The instructions that a program is lowered to, and the runtime functions that they call.
//!
//! A program becomes one list of instructions, each of which stands for one call of an LLVM
//! builder. The value that an instruction gives is named by the place of the instruction in the
//! list.

use vstd::prelude::*;
use crate::ast::Type;
use crate::text::text1;

verus! {

/// How a value is represented at run time.
#[derive(Debug, Clone, Copy, PartialEq, Eq, Structural)]
pub enum Repr {
    /// A float of the given bit width.
    Float(u32),
    /// An integer of the given bit width. A truth value has width 1.
    Int(u32),
    /// A pointer, which is what a text is too.
    Ptr,
    /// A pointer wrapped in a structure: a bignum or an array.
    Handle,
    /// A pointer wrapped in the structure that only bigints have.
    BigInt,
    /// A 64-bit result and whether it overflowed.
    Checked,
    /// No value.
    Void,
}

/// The value that an instruction gives.
#[derive(Debug, Clone, Copy, PartialEq, Eq, Structural)]
pub struct Value {
    /// The place of the instruction in the list.
    pub id: usize,
    pub repr: Repr,
}

/// A comparison of two numbers.
#[derive(Debug, Clone, Copy, PartialEq, Eq, Structural)]
pub enum Test {
    Eq,
    Ne,
    Lt,
    Gt,
    Le,
    Ge,
}

/// What an instruction does. Its operands are given beside it.
#[derive(Debug, Clone, Copy, PartialEq, Eq, Structural)]
pub enum Op {
    /// Starts the body of the function with the given number, in a new block.
    BeginFunction(usize),
    /// Starts the body of `main`, in a new block.
    BeginMain,
    /// Adds a block to the function.
    Block,
    /// Goes on at the end of a block.
    At,
    /// Goes to a block.
    Jump,
    /// Goes to the first or the second block, by a truth value.
    Branch,
    /// Returns a value.
    Ret,
    /// Returns without a value.
    RetVoid,
    /// Cannot be reached.
    Unreachable,
    /// The parameter with the given number.
    Param(usize),
    /// A place in memory, made once at the start of the function.
    Slot(Repr),
    /// Stores the second operand at the first.
    Store,
    /// Loads from a place.
    Load(Repr),
    /// The float that the text denotes.
    ConstFloat,
    /// An integer of the given width.
    ConstInt(u32, i64),
    /// The text as a constant.
    ConstStr,
    /// The null pointer.
    Null,
    /// The size of a representation, in bytes.
    SizeOf(Repr),
    /// A float made wider.
    FloatExtend(u32),
    /// A float made narrower.
    FloatTruncate(u32),
    /// An integer made wider, with its sign.
    SignExtend(u32),
    /// An integer made wider, without a sign.
    ZeroExtend(u32),
    /// An integer made narrower.
    Truncate(u32),
    /// A float as a 64-bit integer, without its fraction.
    FloatToInt,
    /// A 64-bit integer as a float.
    IntToFloat,
    /// A pointer wrapped in a structure.
    Wrap(Repr),
    /// The pointer in a structure.
    Unwrap,
    FloatAdd,
    FloatSub,
    FloatMul,
    FloatDiv,
    FloatNeg,
    FloatTest(Test),
    IntAdd,
    IntDiv,
    IntNeg,
    IntTest(Test),
    And,
    Or,
    Not,
    /// The second or the third operand, by a truth value.
    Select,
    /// The result of a checked operation.
    CheckedResult,
    /// Whether a checked operation overflowed.
    CheckedFlag,
    /// Calls a runtime function.
    Call(Rt),
    /// Calls the function of the program with the given number.
    CallFunction(usize),
}

/// The functions that compiled programs need at run time: those of the C library, of LLVM, and of
/// the language's own runtime.
#[derive(Debug, Clone, Copy, PartialEq, Eq, Structural)]
pub enum Rt {
    Printf,
    Pow,
    Free,
    Malloc,
    Snprintf,
    Strdup,
    ReadLine,
    ReadNum,
    ParseNum,
    ClockElapsed,
    Fopen,
    Fprintf,
    Fclose,
    ReadFile,
    ArrayNew,
    ArrayFree,
    ArrayAppend,
    ArrayGetPtr,
    ArrayLength,
    IntDie,
    AddOverflow,
    SubOverflow,
    MulOverflow,
    BignumNew,
    BignumSetD,
    BignumSetStr,
    BignumCopy,
    BignumAdd,
    BignumSub,
    BignumMul,
    BignumDiv,
    BignumToString,
    BignumFree,
    BignumPow,
    BignumGetI64,
    BignumNeg,
    BignumOrder,
    BigintNew,
    BigintSetStr,
    BigintCopy,
    BigintAdd,
    BigintSub,
    BigintMul,
    BigintDiv,
    BigintToString,
    BigintFree,
    BigintPow,
    BigintTetration,
    BigintFactorial,
    BigintNeg,
    BigintOrder,
}

/// An instruction.
#[derive(Debug)]
pub struct Inst {
    pub op: Op,
    /// The instructions whose values are the operands.
    pub args: Vec<usize>,
    /// A name, or the text of a constant.
    pub text: String,
}

/// The view of an instruction.
pub struct InstV {
    pub op: Op,
    pub args: Seq<usize>,
    pub text: Seq<char>,
}

impl Inst {
    /// The view of this instruction.
    pub open spec fn view(&self) -> InstV {
        InstV { op: self.op, args: self.args@, text: self.text@ }
    }
}

/// The views of instructions in order.
pub open spec fn insts_view(s: Seq<Inst>) -> Seq<InstV> {
    Seq::new(s.len(), |i: int| s[i].view())
}

/// The name of a runtime function.
pub open spec fn rt_name(f: Rt) -> Seq<char> {
    match f {
        Rt::Printf => "printf"@,
        Rt::Pow => "pow"@,
        Rt::Free => "free"@,
        Rt::Malloc => "malloc"@,
        Rt::Snprintf => "snprintf"@,
        Rt::Strdup => "strdup"@,
        Rt::ReadLine => "cyborg_read_line"@,
        Rt::ReadNum => "cyborg_read_num"@,
        Rt::ParseNum => "cyborg_parse_num_or_die"@,
        Rt::ClockElapsed => "cyborg_clock_elapsed"@,
        Rt::Fopen => "cyborg_fopen_or_die"@,
        Rt::Fprintf => "fprintf"@,
        Rt::Fclose => "fclose"@,
        Rt::ReadFile => "cyborg_read_file_or_die"@,
        Rt::ArrayNew => "cyborg_array_new"@,
        Rt::ArrayFree => "cyborg_array_free"@,
        Rt::ArrayAppend => "cyborg_array_append"@,
        Rt::ArrayGetPtr => "cyborg_array_get_ptr"@,
        Rt::ArrayLength => "cyborg_array_length"@,
        Rt::IntDie => "cyborg_int_die"@,
        Rt::AddOverflow => "llvm.sadd.with.overflow.i64"@,
        Rt::SubOverflow => "llvm.ssub.with.overflow.i64"@,
        Rt::MulOverflow => "llvm.smul.with.overflow.i64"@,
        Rt::BignumNew => "bignum_new"@,
        Rt::BignumSetD => "bignum_set_d"@,
        Rt::BignumSetStr => "bignum_set_str"@,
        Rt::BignumCopy => "bignum_copy"@,
        Rt::BignumAdd => "bignum_add"@,
        Rt::BignumSub => "bignum_sub"@,
        Rt::BignumMul => "bignum_mul"@,
        Rt::BignumDiv => "bignum_div"@,
        Rt::BignumToString => "bignum_to_string"@,
        Rt::BignumFree => "bignum_free"@,
        Rt::BignumPow => "bignum_pow"@,
        Rt::BignumGetI64 => "bignum_get_i64"@,
        Rt::BignumNeg => "bignum_neg"@,
        Rt::BignumOrder => "bignum_cmp"@,
        Rt::BigintNew => "bigint_new"@,
        Rt::BigintSetStr => "bigint_set_str"@,
        Rt::BigintCopy => "bigint_copy"@,
        Rt::BigintAdd => "bigint_add"@,
        Rt::BigintSub => "bigint_sub"@,
        Rt::BigintMul => "bigint_mul"@,
        Rt::BigintDiv => "bigint_div"@,
        Rt::BigintToString => "bigint_to_string"@,
        Rt::BigintFree => "bigint_free"@,
        Rt::BigintPow => "bigint_pow"@,
        Rt::BigintTetration => "bigint_tetration"@,
        Rt::BigintFactorial => "bigint_factorial"@,
        Rt::BigintNeg => "bigint_neg"@,
        Rt::BigintOrder => "bigint_cmp"@,
    }
}

/// What a runtime function takes.
pub open spec fn rt_params(f: Rt) -> Seq<Repr> {
    match f {
        Rt::Printf | Rt::Free | Rt::Strdup | Rt::ParseNum | Rt::Fclose | Rt::ReadFile | Rt::ArrayFree
        | Rt::ArrayLength | Rt::IntDie | Rt::BignumToString | Rt::BignumFree | Rt::BignumGetI64
        | Rt::BigintToString | Rt::BigintFree => seq![Repr::Ptr],
        Rt::Pow => seq![Repr::Float(64), Repr::Float(64)],
        Rt::Malloc | Rt::ArrayNew | Rt::BignumNew => seq![Repr::Int(64)],
        Rt::Snprintf => seq![Repr::Ptr, Repr::Int(64), Repr::Ptr],
        Rt::ReadLine | Rt::ReadNum | Rt::ClockElapsed | Rt::BigintNew => Seq::empty(),
        Rt::Fopen | Rt::Fprintf | Rt::ArrayAppend | Rt::BignumSetStr | Rt::BignumCopy | Rt::BignumNeg
        | Rt::BignumOrder | Rt::BigintSetStr | Rt::BigintCopy | Rt::BigintFactorial | Rt::BigintNeg
        | Rt::BigintOrder => seq![Repr::Ptr, Repr::Ptr],
        Rt::ArrayGetPtr => seq![Repr::Ptr, Repr::Int(64)],
        Rt::AddOverflow | Rt::SubOverflow | Rt::MulOverflow => seq![Repr::Int(64), Repr::Int(64)],
        Rt::BignumSetD => seq![Repr::Ptr, Repr::Float(64)],
        Rt::BignumAdd | Rt::BignumSub | Rt::BignumMul | Rt::BignumDiv | Rt::BignumPow | Rt::BigintAdd
        | Rt::BigintSub | Rt::BigintMul | Rt::BigintDiv | Rt::BigintPow | Rt::BigintTetration => seq![Repr::Ptr, Repr::Ptr, Repr::Ptr],
    }
}

/// What a runtime function gives.
pub open spec fn rt_result(f: Rt) -> Repr {
    match f {
        Rt::Printf | Rt::Snprintf | Rt::Fprintf | Rt::Fclose | Rt::BignumOrder | Rt::BigintOrder => Repr::Int(32),
        Rt::Pow | Rt::ReadNum | Rt::ParseNum | Rt::ClockElapsed => Repr::Float(64),
        Rt::Free | Rt::ArrayFree | Rt::ArrayAppend | Rt::IntDie | Rt::BignumSetD | Rt::BignumSetStr
        | Rt::BignumCopy | Rt::BignumAdd | Rt::BignumSub | Rt::BignumMul | Rt::BignumDiv | Rt::BignumFree
        | Rt::BignumPow | Rt::BignumNeg | Rt::BigintSetStr | Rt::BigintCopy | Rt::BigintAdd | Rt::BigintSub
        | Rt::BigintMul | Rt::BigintDiv | Rt::BigintFree | Rt::BigintPow | Rt::BigintTetration
        | Rt::BigintFactorial | Rt::BigintNeg => Repr::Void,
        Rt::Malloc | Rt::Strdup | Rt::ReadLine | Rt::Fopen | Rt::ReadFile | Rt::ArrayNew | Rt::ArrayGetPtr
        | Rt::BignumNew | Rt::BignumToString | Rt::BigintNew | Rt::BigintToString => Repr::Ptr,
        Rt::ArrayLength | Rt::BignumGetI64 => Repr::Int(64),
        Rt::AddOverflow | Rt::SubOverflow | Rt::MulOverflow => Repr::Checked,
    }
}

/// Whether a runtime function takes more operands than are listed.
pub open spec fn rt_variadic(f: Rt) -> bool {
    f is Printf || f is Fprintf || f is Snprintf
}

impl Rt {
    /// The name of this function.
    pub fn name(self) -> (r: String)
        ensures
            r@ == rt_name(self),
    {
        match self {
            Rt::Printf => text1("printf"),
            Rt::Pow => text1("pow"),
            Rt::Free => text1("free"),
            Rt::Malloc => text1("malloc"),
            Rt::Snprintf => text1("snprintf"),
            Rt::Strdup => text1("strdup"),
            Rt::ReadLine => text1("cyborg_read_line"),
            Rt::ReadNum => text1("cyborg_read_num"),
            Rt::ParseNum => text1("cyborg_parse_num_or_die"),
            Rt::ClockElapsed => text1("cyborg_clock_elapsed"),
            Rt::Fopen => text1("cyborg_fopen_or_die"),
            Rt::Fprintf => text1("fprintf"),
            Rt::Fclose => text1("fclose"),
            Rt::ReadFile => text1("cyborg_read_file_or_die"),
            Rt::ArrayNew => text1("cyborg_array_new"),
            Rt::ArrayFree => text1("cyborg_array_free"),
            Rt::ArrayAppend => text1("cyborg_array_append"),
            Rt::ArrayGetPtr => text1("cyborg_array_get_ptr"),
            Rt::ArrayLength => text1("cyborg_array_length"),
            Rt::IntDie => text1("cyborg_int_die"),
            Rt::AddOverflow => text1("llvm.sadd.with.overflow.i64"),
            Rt::SubOverflow => text1("llvm.ssub.with.overflow.i64"),
            Rt::MulOverflow => text1("llvm.smul.with.overflow.i64"),
            Rt::BignumNew => text1("bignum_new"),
            Rt::BignumSetD => text1("bignum_set_d"),
            Rt::BignumSetStr => text1("bignum_set_str"),
            Rt::BignumCopy => text1("bignum_copy"),
            Rt::BignumAdd => text1("bignum_add"),
            Rt::BignumSub => text1("bignum_sub"),
            Rt::BignumMul => text1("bignum_mul"),
            Rt::BignumDiv => text1("bignum_div"),
            Rt::BignumToString => text1("bignum_to_string"),
            Rt::BignumFree => text1("bignum_free"),
            Rt::BignumPow => text1("bignum_pow"),
            Rt::BignumGetI64 => text1("bignum_get_i64"),
            Rt::BignumNeg => text1("bignum_neg"),
            Rt::BignumOrder => text1("bignum_cmp"),
            Rt::BigintNew => text1("bigint_new"),
            Rt::BigintSetStr => text1("bigint_set_str"),
            Rt::BigintCopy => text1("bigint_copy"),
            Rt::BigintAdd => text1("bigint_add"),
            Rt::BigintSub => text1("bigint_sub"),
            Rt::BigintMul => text1("bigint_mul"),
            Rt::BigintDiv => text1("bigint_div"),
            Rt::BigintToString => text1("bigint_to_string"),
            Rt::BigintFree => text1("bigint_free"),
            Rt::BigintPow => text1("bigint_pow"),
            Rt::BigintTetration => text1("bigint_tetration"),
            Rt::BigintFactorial => text1("bigint_factorial"),
            Rt::BigintNeg => text1("bigint_neg"),
            Rt::BigintOrder => text1("bigint_cmp"),
        }
    }

    /// What this function takes.
    pub fn params(self) -> (r: Vec<Repr>)
        ensures
            r@ == rt_params(self),
    {
        let mut r: Vec<Repr> = Vec::new();
        match self {
            Rt::Printf | Rt::Free | Rt::Strdup | Rt::ParseNum | Rt::Fclose | Rt::ReadFile | Rt::ArrayFree
            | Rt::ArrayLength | Rt::IntDie | Rt::BignumToString | Rt::BignumFree | Rt::BignumGetI64
            | Rt::BigintToString | Rt::BigintFree => {
                r.push(Repr::Ptr);
            },
            Rt::Pow => {
                r.push(Repr::Float(64));
                r.push(Repr::Float(64));
            },
            Rt::Malloc | Rt::ArrayNew | Rt::BignumNew => {
                r.push(Repr::Int(64));
            },
            Rt::Snprintf => {
                r.push(Repr::Ptr);
                r.push(Repr::Int(64));
                r.push(Repr::Ptr);
            },
            Rt::ReadLine | Rt::ReadNum | Rt::ClockElapsed | Rt::BigintNew => {
            },
            Rt::Fopen | Rt::Fprintf | Rt::ArrayAppend | Rt::BignumSetStr | Rt::BignumCopy | Rt::BignumNeg
            | Rt::BignumOrder | Rt::BigintSetStr | Rt::BigintCopy | Rt::BigintFactorial | Rt::BigintNeg
            | Rt::BigintOrder => {
                r.push(Repr::Ptr);
                r.push(Repr::Ptr);
            },
            Rt::ArrayGetPtr => {
                r.push(Repr::Ptr);
                r.push(Repr::Int(64));
            },
            Rt::AddOverflow | Rt::SubOverflow | Rt::MulOverflow => {
                r.push(Repr::Int(64));
                r.push(Repr::Int(64));
            },
            Rt::BignumSetD => {
                r.push(Repr::Ptr);
                r.push(Repr::Float(64));
            },
            Rt::BignumAdd | Rt::BignumSub | Rt::BignumMul | Rt::BignumDiv | Rt::BignumPow | Rt::BigintAdd
            | Rt::BigintSub | Rt::BigintMul | Rt::BigintDiv | Rt::BigintPow | Rt::BigintTetration => {
                r.push(Repr::Ptr);
                r.push(Repr::Ptr);
                r.push(Repr::Ptr);
            },
        }
        assert(r@ =~= rt_params(self));
        r
    }

    /// What this function gives.
    pub fn result(self) -> (r: Repr)
        ensures
            r == rt_result(self),
    {
        match self {
            Rt::Printf | Rt::Snprintf | Rt::Fprintf | Rt::Fclose | Rt::BignumOrder | Rt::BigintOrder => Repr::Int(32),
            Rt::Pow | Rt::ReadNum | Rt::ParseNum | Rt::ClockElapsed => Repr::Float(64),
            Rt::Free | Rt::ArrayFree | Rt::ArrayAppend | Rt::IntDie | Rt::BignumSetD | Rt::BignumSetStr
            | Rt::BignumCopy | Rt::BignumAdd | Rt::BignumSub | Rt::BignumMul | Rt::BignumDiv | Rt::BignumFree
            | Rt::BignumPow | Rt::BignumNeg | Rt::BigintSetStr | Rt::BigintCopy | Rt::BigintAdd
            | Rt::BigintSub | Rt::BigintMul | Rt::BigintDiv | Rt::BigintFree | Rt::BigintPow
            | Rt::BigintTetration | Rt::BigintFactorial | Rt::BigintNeg => Repr::Void,
            Rt::Malloc | Rt::Strdup | Rt::ReadLine | Rt::Fopen | Rt::ReadFile | Rt::ArrayNew | Rt::ArrayGetPtr
            | Rt::BignumNew | Rt::BignumToString | Rt::BigintNew | Rt::BigintToString => Repr::Ptr,
            Rt::ArrayLength | Rt::BignumGetI64 => Repr::Int(64),
            Rt::AddOverflow | Rt::SubOverflow | Rt::MulOverflow => Repr::Checked,
        }
    }

    /// Whether this function takes more operands than are listed.
    pub fn variadic(self) -> (r: bool)
        ensures
            r == rt_variadic(self),
    {
        matches!(self, Rt::Printf | Rt::Fprintf | Rt::Snprintf)
    }

    /// All runtime functions.
    pub fn all() -> (r: Vec<Rt>)
        ensures
            r@ == rt_list(),
    {
        let r: Vec<Rt> = vec![
            Rt::Printf,
            Rt::Pow,
            Rt::Free,
            Rt::Malloc,
            Rt::Snprintf,
            Rt::Strdup,
            Rt::ReadLine,
            Rt::ReadNum,
            Rt::ParseNum,
            Rt::ClockElapsed,
            Rt::Fopen,
            Rt::Fprintf,
            Rt::Fclose,
            Rt::ReadFile,
            Rt::ArrayNew,
            Rt::ArrayFree,
            Rt::ArrayAppend,
            Rt::ArrayGetPtr,
            Rt::ArrayLength,
            Rt::IntDie,
            Rt::AddOverflow,
            Rt::SubOverflow,
            Rt::MulOverflow,
            Rt::BignumNew,
            Rt::BignumSetD,
            Rt::BignumSetStr,
            Rt::BignumCopy,
            Rt::BignumAdd,
            Rt::BignumSub,
            Rt::BignumMul,
            Rt::BignumDiv,
            Rt::BignumToString,
            Rt::BignumFree,
            Rt::BignumPow,
            Rt::BignumGetI64,
            Rt::BignumNeg,
            Rt::BignumOrder,
            Rt::BigintNew,
            Rt::BigintSetStr,
            Rt::BigintCopy,
            Rt::BigintAdd,
            Rt::BigintSub,
            Rt::BigintMul,
            Rt::BigintDiv,
            Rt::BigintToString,
            Rt::BigintFree,
            Rt::BigintPow,
            Rt::BigintTetration,
            Rt::BigintFactorial,
            Rt::BigintNeg,
            Rt::BigintOrder,
        ];
        assert(r@ =~= rt_list());
        r
    }
}

/// All runtime functions.
pub open spec fn rt_list() -> Seq<Rt> {
    seq![
        Rt::Printf,
        Rt::Pow,
        Rt::Free,
        Rt::Malloc,
        Rt::Snprintf,
        Rt::Strdup,
        Rt::ReadLine,
        Rt::ReadNum,
        Rt::ParseNum,
        Rt::ClockElapsed,
        Rt::Fopen,
        Rt::Fprintf,
        Rt::Fclose,
        Rt::ReadFile,
        Rt::ArrayNew,
        Rt::ArrayFree,
        Rt::ArrayAppend,
        Rt::ArrayGetPtr,
        Rt::ArrayLength,
        Rt::IntDie,
        Rt::AddOverflow,
        Rt::SubOverflow,
        Rt::MulOverflow,
        Rt::BignumNew,
        Rt::BignumSetD,
        Rt::BignumSetStr,
        Rt::BignumCopy,
        Rt::BignumAdd,
        Rt::BignumSub,
        Rt::BignumMul,
        Rt::BignumDiv,
        Rt::BignumToString,
        Rt::BignumFree,
        Rt::BignumPow,
        Rt::BignumGetI64,
        Rt::BignumNeg,
        Rt::BignumOrder,
        Rt::BigintNew,
        Rt::BigintSetStr,
        Rt::BigintCopy,
        Rt::BigintAdd,
        Rt::BigintSub,
        Rt::BigintMul,
        Rt::BigintDiv,
        Rt::BigintToString,
        Rt::BigintFree,
        Rt::BigintPow,
        Rt::BigintTetration,
        Rt::BigintFactorial,
        Rt::BigintNeg,
        Rt::BigintOrder,
    ]
}

/// The place of a runtime function in the list of all of them.
pub open spec fn rt_place(f: Rt) -> int {
    match f {
        Rt::Printf => 0,
        Rt::Pow => 1,
        Rt::Free => 2,
        Rt::Malloc => 3,
        Rt::Snprintf => 4,
        Rt::Strdup => 5,
        Rt::ReadLine => 6,
        Rt::ReadNum => 7,
        Rt::ParseNum => 8,
        Rt::ClockElapsed => 9,
        Rt::Fopen => 10,
        Rt::Fprintf => 11,
        Rt::Fclose => 12,
        Rt::ReadFile => 13,
        Rt::ArrayNew => 14,
        Rt::ArrayFree => 15,
        Rt::ArrayAppend => 16,
        Rt::ArrayGetPtr => 17,
        Rt::ArrayLength => 18,
        Rt::IntDie => 19,
        Rt::AddOverflow => 20,
        Rt::SubOverflow => 21,
        Rt::MulOverflow => 22,
        Rt::BignumNew => 23,
        Rt::BignumSetD => 24,
        Rt::BignumSetStr => 25,
        Rt::BignumCopy => 26,
        Rt::BignumAdd => 27,
        Rt::BignumSub => 28,
        Rt::BignumMul => 29,
        Rt::BignumDiv => 30,
        Rt::BignumToString => 31,
        Rt::BignumFree => 32,
        Rt::BignumPow => 33,
        Rt::BignumGetI64 => 34,
        Rt::BignumNeg => 35,
        Rt::BignumOrder => 36,
        Rt::BigintNew => 37,
        Rt::BigintSetStr => 38,
        Rt::BigintCopy => 39,
        Rt::BigintAdd => 40,
        Rt::BigintSub => 41,
        Rt::BigintMul => 42,
        Rt::BigintDiv => 43,
        Rt::BigintToString => 44,
        Rt::BigintFree => 45,
        Rt::BigintPow => 46,
        Rt::BigintTetration => 47,
        Rt::BigintFactorial => 48,
        Rt::BigintNeg => 49,
        Rt::BigintOrder => 50,
    }
}

/// Every runtime function is in the list of all of them.
#[verifier::rlimit(50)]
pub proof fn rt_list_is_complete(f: Rt)
    ensures
        0 <= rt_place(f) < rt_list().len(),
        rt_list()[rt_place(f)] == f,
{
}

/// How the values of a type are represented.
pub open spec fn repr_of(ty: Type) -> Repr {
    match ty {
        Type::Num(w) | Type::NumW(w) => Repr::Float(w),
        Type::Bool => Repr::Int(1),
        Type::Int(w) => Repr::Int(w),
        Type::Str | Type::File => Repr::Ptr,
        Type::BigNum(_) | Type::Array(_) => Repr::Handle,
        Type::BigInt => Repr::BigInt,
        Type::Void => Repr::Void,
    }
}

/// How the values of a type are represented.
#[verifier::when_used_as_spec(repr_of)]
pub fn basic_type(ty: Type) -> (r: Repr)
    ensures
        r == repr_of(ty),
{
    match ty {
        Type::Num(w) | Type::NumW(w) => Repr::Float(w),
        Type::Bool => Repr::Int(1),
        Type::Int(w) => Repr::Int(w),
        Type::Str | Type::File => Repr::Ptr,
        Type::BigNum(_) | Type::Array(_) => Repr::Handle,
        Type::BigInt => Repr::BigInt,
        Type::Void => Repr::Void,
    }
}

} // verus!
