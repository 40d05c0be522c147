//! Runs compiled programs on a small machine that watches over their memory.

use std::collections::HashMap;

use cyborgpl::compile::Module;
use cyborgpl::driver::{build_program, parse_source};
use cyborgpl::ir::{Op, Repr, Rt, Test};

#[derive(Clone, Debug, PartialEq)]
enum Val {
    Nothing,
    Int(i64),
    Float(f64),
    Null,
    Const(String),
    Heap(usize),
    Slot(usize),
    Element(usize, usize),
    Checked(i64, bool),
}

#[derive(Clone, Debug)]
enum Object {
    Text(String),
    Decimal(f64),
    Whole(i128),
    Array(Vec<Val>),
    File(String),
    Freed,
}

struct Machine<'a> {
    module: &'a Module,
    heap: Vec<Object>,
    slots: Vec<Val>,
    files: HashMap<String, String>,
    lines: Vec<String>,
    shown: String,
}

type Outcome = Result<Val, String>;

fn decimal(v: f64) -> String {
    format!("{v}")
}

impl<'a> Machine<'a> {
    fn make(&mut self, o: Object) -> Val {
        self.heap.push(o);
        Val::Heap(self.heap.len() - 1)
    }

    fn free(&mut self, v: &Val) {
        match v {
            Val::Null => {}
            Val::Heap(k) => {
                assert!(!matches!(self.heap[*k], Object::Freed), "freed twice: {k}");
                self.heap[*k] = Object::Freed;
            }
            other => panic!("{other:?} cannot be freed"),
        }
    }

    fn text(&self, v: &Val) -> String {
        match v {
            Val::Const(t) => t.clone(),
            Val::Heap(k) => match &self.heap[*k] {
                Object::Text(t) => t.clone(),
                other => panic!("{other:?} is no text"),
            },
            other => panic!("{other:?} is no text"),
        }
    }

    fn big(&self, v: &Val) -> f64 {
        match v {
            Val::Heap(k) => match &self.heap[*k] {
                Object::Decimal(d) => *d,
                other => panic!("{other:?} is no bignum"),
            },
            other => panic!("{other:?} is no bignum"),
        }
    }

    fn whole(&self, v: &Val) -> i128 {
        match v {
            Val::Heap(k) => match &self.heap[*k] {
                Object::Whole(d) => *d,
                other => panic!("{other:?} is no bigint"),
            },
            other => panic!("{other:?} is no bigint"),
        }
    }

    fn put(&mut self, v: &Val, o: Object) {
        match v {
            Val::Heap(k) => {
                assert!(!matches!(self.heap[*k], Object::Freed), "used after it was freed: {k}");
                self.heap[*k] = o;
            }
            other => panic!("{other:?} is no object"),
        }
    }

    fn array(&mut self, v: &Val) -> &mut Vec<Val> {
        match v {
            Val::Heap(k) => match &mut self.heap[*k] {
                Object::Array(a) => a,
                other => panic!("{other:?} is no array"),
            },
            other => panic!("{other:?} is no array"),
        }
    }

    fn load(&mut self, place: &Val) -> Val {
        match place {
            Val::Slot(k) => self.slots[*k].clone(),
            Val::Element(a, i) => self.array(&Val::Heap(*a))[*i].clone(),
            other => panic!("{other:?} is no place"),
        }
    }

    fn store(&mut self, place: &Val, v: Val) {
        match place {
            Val::Slot(k) => self.slots[*k] = v,
            Val::Element(a, i) => self.array(&Val::Heap(*a))[*i] = v,
            other => panic!("{other:?} is no place"),
        }
    }

    fn formatted(&self, format: &str, args: &[Val]) -> String {
        let mut out = String::new();
        let mut args = args.iter();
        let mut rest = format;
        while let Some(k) = rest.find('%') {
            out.push_str(&rest[..k]);
            rest = &rest[k + 1..];
            if let Some(r) = rest.strip_prefix('%') {
                out.push('%');
                rest = r;
            } else if let Some(r) = rest.strip_prefix("lld") {
                match args.next() {
                    Some(Val::Int(v)) => out.push_str(&format!("{v}")),
                    other => panic!("{other:?} for %lld"),
                }
                rest = r;
            } else if let Some(r) = rest.strip_prefix('g') {
                match args.next() {
                    Some(Val::Float(v)) => out.push_str(&decimal(*v)),
                    other => panic!("{other:?} for %g"),
                }
                rest = r;
            } else if let Some(r) = rest.strip_prefix('s') {
                let v = args.next().unwrap_or_else(|| panic!("nothing for %s"));
                out.push_str(&self.text(v));
                rest = r;
            } else {
                panic!("unknown format {rest:?}");
            }
        }
        out.push_str(rest);
        out
    }

    fn runtime(&mut self, f: Rt, a: &[Val]) -> Outcome {
        let int = |i: usize| match &a[i] {
            Val::Int(v) => *v,
            other => panic!("{other:?} is no int"),
        };
        let float = |i: usize| match &a[i] {
            Val::Float(v) => *v,
            other => panic!("{other:?} is no float"),
        };
        let fits = |v: i128| Val::Checked(v as i64, v < i64::MIN as i128 || v > i64::MAX as i128);
        Ok(match f {
            Rt::Printf => {
                let t = self.formatted(&self.text(&a[0]), &a[1..]);
                self.shown.push_str(&t);
                Val::Int(t.len() as i64)
            }
            Rt::Fprintf => {
                let t = self.formatted(&self.text(&a[1]), &a[2..]);
                match &a[0] {
                    Val::Heap(k) => match &self.heap[*k] {
                        Object::File(name) => self.files.entry(name.clone()).or_default().push_str(&t),
                        other => panic!("{other:?} is no file"),
                    },
                    other => panic!("{other:?} is no file"),
                };
                Val::Int(t.len() as i64)
            }
            Rt::Fopen => {
                let name = self.text(&a[0]);
                self.files.insert(name.clone(), String::new());
                self.make(Object::File(name))
            }
            Rt::Fclose => {
                self.free(&a[0]);
                Val::Int(0)
            }
            Rt::Snprintf => {
                let t = self.formatted(&self.text(&a[2]), &a[3..]);
                let n = t.len() as i64;
                if a[0] != Val::Null {
                    assert!(n < int(1), "the buffer is too small");
                    self.put(&a[0], Object::Text(t));
                }
                Val::Int(n)
            }
            Rt::Pow => Val::Float(float(0).powf(float(1))),
            Rt::Free | Rt::ArrayFree | Rt::BignumFree | Rt::BigintFree => {
                self.free(&a[0]);
                Val::Nothing
            }
            Rt::Malloc => self.make(Object::Text(String::new())),
            Rt::Strdup => {
                let t = self.text(&a[0]);
                self.make(Object::Text(t))
            }
            Rt::ReadLine => {
                let t = self.lines.remove(0);
                self.make(Object::Text(t))
            }
            Rt::ReadNum => Val::Float(self.lines.remove(0).trim().parse().unwrap()),
            Rt::ParseNum => Val::Float(self.text(&a[0]).trim().parse().unwrap()),
            Rt::ClockElapsed => Val::Float(0.5),
            Rt::ReadFile => {
                let name = self.text(&a[0]);
                let t = self.files.get(&name).cloned().ok_or(format!("no file {name}"))?;
                self.make(Object::Text(t))
            }
            Rt::ArrayNew => self.make(Object::Array(vec![])),
            Rt::ArrayAppend => {
                let v = self.load(&a[1]);
                self.array(&a[0]).push(v);
                Val::Nothing
            }
            Rt::ArrayGetPtr => {
                let i = int(1);
                if i < 1 || i > self.array(&a[0]).len() as i64 {
                    return Err(format!("index {i} out of range"));
                }
                match a[0] {
                    Val::Heap(k) => Val::Element(k, i as usize - 1),
                    _ => unreachable!(),
                }
            }
            Rt::ArrayLength => Val::Int(self.array(&a[0]).len() as i64),
            Rt::IntDie => return Err(self.text(&a[0])),
            Rt::AddOverflow => fits(int(0) as i128 + int(1) as i128),
            Rt::SubOverflow => fits(int(0) as i128 - int(1) as i128),
            Rt::MulOverflow => fits(int(0) as i128 * int(1) as i128),
            Rt::BignumNew => self.make(Object::Decimal(0.0)),
            Rt::BignumSetD => {
                self.put(&a[0], Object::Decimal(float(1)));
                Val::Nothing
            }
            Rt::BignumSetStr => {
                let v = self.text(&a[1]).parse().unwrap();
                self.put(&a[0], Object::Decimal(v));
                Val::Nothing
            }
            Rt::BignumCopy => {
                let v = self.big(&a[1]);
                self.put(&a[0], Object::Decimal(v));
                Val::Nothing
            }
            Rt::BignumNeg => {
                let v = -self.big(&a[1]);
                self.put(&a[0], Object::Decimal(v));
                Val::Nothing
            }
            Rt::BignumAdd | Rt::BignumSub | Rt::BignumMul | Rt::BignumDiv | Rt::BignumPow => {
                let (x, y) = (self.big(&a[1]), self.big(&a[2]));
                let v = match f {
                    Rt::BignumAdd => x + y,
                    Rt::BignumSub => x - y,
                    Rt::BignumMul => x * y,
                    Rt::BignumDiv => x / y,
                    _ => x.powf(y),
                };
                self.put(&a[0], Object::Decimal(v));
                Val::Nothing
            }
            Rt::BignumToString => {
                let t = decimal(self.big(&a[0]));
                self.make(Object::Text(t))
            }
            Rt::BignumGetI64 => Val::Int(self.big(&a[0]) as i64),
            Rt::BignumOrder => {
                let (x, y) = (self.big(&a[0]), self.big(&a[1]));
                Val::Int((x > y) as i64 - (x < y) as i64)
            }
            Rt::BigintNew => self.make(Object::Whole(0)),
            Rt::BigintSetStr => {
                let v = self.text(&a[1]).parse().unwrap();
                self.put(&a[0], Object::Whole(v));
                Val::Nothing
            }
            Rt::BigintCopy => {
                let v = self.whole(&a[1]);
                self.put(&a[0], Object::Whole(v));
                Val::Nothing
            }
            Rt::BigintNeg => {
                let v = -self.whole(&a[1]);
                self.put(&a[0], Object::Whole(v));
                Val::Nothing
            }
            Rt::BigintFactorial => {
                let v = (1..=self.whole(&a[1])).product();
                self.put(&a[0], Object::Whole(v));
                Val::Nothing
            }
            Rt::BigintAdd | Rt::BigintSub | Rt::BigintMul | Rt::BigintDiv | Rt::BigintPow | Rt::BigintTetration => {
                let (x, y) = (self.whole(&a[1]), self.whole(&a[2]));
                let v = match f {
                    Rt::BigintAdd => x + y,
                    Rt::BigintSub => x - y,
                    Rt::BigintMul => x * y,
                    Rt::BigintDiv => x / y,
                    Rt::BigintPow => x.pow(y as u32),
                    _ => (1..y).fold(x, |t, _| x.pow(t as u32)),
                };
                self.put(&a[0], Object::Whole(v));
                Val::Nothing
            }
            Rt::BigintToString => {
                let t = format!("{}", self.whole(&a[0]));
                self.make(Object::Text(t))
            }
            Rt::BigintOrder => {
                let (x, y) = (self.whole(&a[0]), self.whole(&a[1]));
                Val::Int((x > y) as i64 - (x < y) as i64)
            }
        })
    }

    fn start_of(&self, op: Op) -> usize {
        self.module.code.iter().position(|i| i.op == op).unwrap_or_else(|| panic!("{op:?} is missing"))
    }

    fn landing(&self, block: usize) -> usize {
        let code = &self.module.code;
        (block..code.len())
            .find(|i| code[*i].op == Op::At && code[*i].args[0] == block)
            .unwrap_or_else(|| panic!("nothing goes on at block {block}"))
    }

    fn run(&mut self, start: usize, params: &[Val]) -> Outcome {
        let module = self.module;
        let mut given: HashMap<usize, Val> = HashMap::new();
        let mut next = start + 1;
        loop {
            let inst = &module.code[next];
            let a: Vec<Val> = inst.args.iter().map(|k| given.get(k).cloned().unwrap_or(Val::Nothing)).collect();
            let int = |i: usize| match &a[i] {
                Val::Int(v) => *v,
                other => panic!("{:?} of {other:?} at {next}", inst.op),
            };
            let float = |i: usize| match &a[i] {
                Val::Float(v) => *v,
                other => panic!("{:?} of {other:?} at {next}", inst.op),
            };
            let truth = |b: bool| Val::Int(b as i64);
            let v = match inst.op {
                Op::BeginFunction(_) | Op::BeginMain => panic!("ran out of a function"),
                Op::Block | Op::At => Val::Nothing,
                Op::Jump => {
                    next = self.landing(inst.args[0]);
                    continue;
                }
                Op::Branch => {
                    next = self.landing(inst.args[if int(0) != 0 { 1 } else { 2 }]);
                    continue;
                }
                Op::Ret => return Ok(a[0].clone()),
                Op::RetVoid => return Ok(Val::Nothing),
                Op::Unreachable => panic!("reached what cannot be reached"),
                Op::Param(i) => params[i].clone(),
                Op::Slot(_) => match given.get(&next) {
                    Some(v) => v.clone(),
                    None => {
                        self.slots.push(Val::Nothing);
                        Val::Slot(self.slots.len() - 1)
                    }
                },
                Op::Store => {
                    self.store(&a[0], a[1].clone());
                    Val::Nothing
                }
                Op::Load(_) => self.load(&a[0]),
                Op::ConstFloat => Val::Float(inst.text.parse().unwrap()),
                Op::ConstInt(_, v) => Val::Int(v),
                Op::ConstStr => Val::Const(inst.text.clone()),
                Op::Null => Val::Null,
                Op::SizeOf(_) => Val::Int(8),
                Op::FloatExtend(_) | Op::FloatTruncate(_) | Op::SignExtend(_) | Op::ZeroExtend(_) => a[0].clone(),
                Op::Wrap(r) => {
                    assert!(r == Repr::Handle || r == Repr::BigInt);
                    a[0].clone()
                }
                Op::Unwrap => a[0].clone(),
                Op::Truncate(w) => Val::Int(match w {
                    8 => int(0) as i8 as i64,
                    16 => int(0) as i16 as i64,
                    32 => int(0) as i32 as i64,
                    _ => int(0),
                }),
                Op::FloatToInt => Val::Int(float(0) as i64),
                Op::IntToFloat => Val::Float(int(0) as f64),
                Op::FloatAdd => Val::Float(float(0) + float(1)),
                Op::FloatSub => Val::Float(float(0) - float(1)),
                Op::FloatMul => Val::Float(float(0) * float(1)),
                Op::FloatDiv => Val::Float(float(0) / float(1)),
                Op::FloatNeg => Val::Float(-float(0)),
                Op::FloatTest(t) => truth(match t {
                    Test::Eq => float(0) == float(1),
                    Test::Ne => float(0) != float(1),
                    Test::Lt => float(0) < float(1),
                    Test::Gt => float(0) > float(1),
                    Test::Le => float(0) <= float(1),
                    Test::Ge => float(0) >= float(1),
                }),
                Op::IntAdd => Val::Int(int(0).wrapping_add(int(1))),
                Op::IntDiv => Val::Int(int(0) / int(1)),
                Op::IntNeg => Val::Int(int(0).wrapping_neg()),
                Op::IntTest(t) => truth(match t {
                    Test::Eq => int(0) == int(1),
                    Test::Ne => int(0) != int(1),
                    Test::Lt => int(0) < int(1),
                    Test::Gt => int(0) > int(1),
                    Test::Le => int(0) <= int(1),
                    Test::Ge => int(0) >= int(1),
                }),
                Op::And => truth(int(0) != 0 && int(1) != 0),
                Op::Or => truth(int(0) != 0 || int(1) != 0),
                Op::Not => truth(int(0) == 0),
                Op::Select => a[if int(0) != 0 { 1 } else { 2 }].clone(),
                Op::CheckedResult => match a[0] {
                    Val::Checked(v, _) => Val::Int(v),
                    _ => panic!("not a checked result"),
                },
                Op::CheckedFlag => match a[0] {
                    Val::Checked(_, b) => truth(b),
                    _ => panic!("not a checked result"),
                },
                Op::Call(f) => self.runtime(f, &a)?,
                Op::CallFunction(k) => {
                    let start = self.start_of(Op::BeginFunction(k));
                    self.run(start, &a)?
                }
            };
            given.insert(next, v);
            next += 1;
        }
    }
}

struct Ran {
    shown: String,
    files: HashMap<String, String>,
    outcome: Outcome,
}

/// Runs a program to its end. One that ends by itself must have freed all its memory.
fn run_with(source: &str, lines: &[&str], files: &[(&str, &str)]) -> Ran {
    let program = parse_source(source).unwrap_or_else(|e| panic!("{e}"));
    let module = build_program(&program, "m").unwrap_or_else(|e| panic!("{e:?}"));
    let mut machine = Machine {
        module: &module,
        heap: vec![],
        slots: vec![],
        files: files.iter().map(|(n, t)| (n.to_string(), t.to_string())).collect(),
        lines: lines.iter().map(|l| l.to_string()).collect(),
        shown: String::new(),
    };
    let start = machine.start_of(Op::BeginMain);
    let outcome = machine.run(start, &[]);
    if outcome.is_ok() {
        for (k, o) in machine.heap.iter().enumerate() {
            assert!(matches!(o, Object::Freed), "never freed: {k} {o:?}");
        }
    }
    Ran { shown: machine.shown, files: machine.files, outcome }
}

fn shows(source: &str) -> String {
    let ran = run_with(source, &[], &[]);
    assert_eq!(ran.outcome, Ok(Val::Int(0)));
    ran.shown
}

fn entry(body: &str) -> String {
    shows(&format!("START {body} END"))
}

fn stops(body: &str) -> String {
    match run_with(&format!("START {body} END"), &[], &[]).outcome {
        Ok(v) => panic!("ended with {v:?}"),
        Err(e) => e,
    }
}

#[test]
fn the_built_in_demo_runs() {
    let source = r#"
    func 'add'*'a': num, 'b': num* -> num {
        return (ref:var:num 'a') + (ref:var:num 'b');
    }

    START
        var:num 'first' = (5);
        var:num 'second' = (2.5);
        if (ref:var:num 'first') < (ref:var:num 'second') {
            print*ref:func 'add'*(ref:var:num 'first'), (ref:var:num 'second')**;
        } else {
            print*(0)*;
        }

        var:str 'greeting' = ("hello, cyborgpl");
        print*(ref:var:str 'greeting')*;

        var:num 'i' = (0);
        while (ref:var:num 'i') < (3) {
            print*(ref:var:num 'i')*;
            ref:var:num 'i' = (ref:var:num 'i') + (1);
        }
    END
"#;
    assert_eq!(shows(source), "0\nhello, cyborgpl\n0\n1\n2\n");
}

#[test]
fn int_operators_give_exact_results() {
    assert_eq!(entry("var:int 'a' = (7); var:int 'b' = (ref:var:int 'a') + (3) x (2) - (1); print*(ref:var:int 'b')*;"), "12\n");
    assert_eq!(entry("var:int 'a' = -(7); print*(ref:var:int 'a') / (2)*;"), "-3\n");
    assert_eq!(entry("var:int 'a' = (3); print*(ref:var:int 'a') xx (4)*;"), "81\n");
    assert_eq!(entry("var:int 'a' = (2); print*(ref:var:int 'a') xx (0)*;"), "1\n");
    assert_eq!(entry("var:int 'a' = (2); print*(ref:var:int 'a') xxx (4)*;"), "65536\n");
    assert_eq!(entry("var:int 'a' = (20); print*(ref:var:int 'a')!*;"), "2432902008176640000\n");
    assert_eq!(entry("var:int 'a' = -(5); print*(ref:var:int 'a')!*;"), "1\n");
}

#[test]
fn int_overflow_stops_the_program() {
    let max = "var:int 'a' = (9223372036854775807);";
    assert_eq!(stops(&format!("{max} print*(ref:var:int 'a') + (1)*;")), "int overflow: result of + doesn't fit in int");
    assert_eq!(stops(&format!("{max} print*-(ref:var:int 'a') - (2)*;")), "int overflow: result of - doesn't fit in int");
    assert_eq!(stops(&format!("{max} print*(ref:var:int 'a') x (2)*;")), "int overflow: result of x doesn't fit in int");
    assert_eq!(stops(&format!("{max} print*(ref:var:int 'a') / (0)*;")), "int division by zero");
    assert_eq!(stops("var:int 'a' = (10); print*(ref:var:int 'a') xx (19)*;"), "int overflow: result of x doesn't fit in int");
    assert_eq!(
        stops("var:int 'a' = (10); print*(ref:var:int 'a') xx -(ref:var:int 'a')*;"),
        "int power requires a non-negative exponent"
    );
    assert_eq!(stops("var:int 'a' = (21); print*(ref:var:int 'a')!*;"), "int overflow: result of x doesn't fit in int");
    assert_eq!(stops("var:int 'a' = (3); print*(ref:var:int 'a') xxx (4)*;"), "int overflow: result of x doesn't fit in int");
    assert_eq!(
        stops(&format!("{max} var:int 'b' = -(ref:var:int 'a') - (1); print*-(ref:var:int 'b')*;")),
        "int overflow: negating i64::MIN doesn't fit in int"
    );
    assert_eq!(
        stops(&format!("{max} var:int 'b' = -(ref:var:int 'a') - (1); var:int 'm' = -(1); print*(ref:var:int 'b') / (ref:var:int 'm')*;")),
        "int overflow: i64::MIN / -1 doesn't fit in int"
    );
}

#[test]
fn narrow_ints_are_checked_at_their_width() {
    assert_eq!(
        stops("var:int 'a' = (100) [precision:8]; print*(ref:var:int[precision:8] 'a') + (100)*;"),
        "int overflow: value doesn't fit in int[precision:8]"
    );
    assert_eq!(
        stops("var:int 'a' = (300); var:int 'b' = (ref:var:int 'a') [precision:8];"),
        "int overflow: value doesn't fit in int[precision:8]"
    );
    assert_eq!(
        entry("var:int 'a' = -(128) [precision:8]; var:int 'b' = (ref:var:int[precision:8] 'a') [precision:16]; print*(ref:var:int[precision:16] 'b')*;"),
        "-128\n"
    );
}

#[test]
fn literals_run_to_their_folded_value() {
    assert_eq!(entry("var:int 'a' = (2) xx (10) - (1000) / (3) x (3); print*(ref:var:int 'a')*;"), "25\n");
    assert_eq!(entry("var:int 'a' = -(2) xx (63); print*(ref:var:int 'a')*;"), "-9223372036854775808\n");
}

#[test]
fn numbers_and_number_words_run() {
    assert_eq!(entry("var:numw 'a' = '1.5 million'; print*(ref:var:numw 'a') / (2)*;"), "750000\n");
    assert_eq!(entry("var:num 'a' = (2); print*(ref:var:num 'a') xx (3) x (2) \" \" (ref:var:num 'a') xxx (3) \" \" (5)!*;"), "16 16 120\n");
    assert_eq!(entry("var:num 'a' = (2) [precision:16]; var:num 'b' = (ref:var:num[precision:16] 'a') + (0.5) [precision:128]; print*(ref:var:num[precision:128] 'b')*;"), "2.5\n");
}

#[test]
fn bignums_run_and_are_freed() {
    assert_eq!(
        entry(
            "var:bignum 'a' = (10); var:bignum 'b' = (\"2.5\");
             print*(ref:var:bignum 'a') + (ref:var:bignum 'b') x (ref:var:bignum 'b') - (1) \" \" -(ref:var:bignum 'a') \" \" (ref:var:bignum 'b') xx (2) \" \" (ref:var:bignum 'a')! \" \" (2) xxx (ref:var:bignum 'b')*;"
        ),
        "15.25 -10 6.25 3628800 4\n"
    );
}

#[test]
fn bignum_loops_reuse_their_literals() {
    assert_eq!(
        entry(
            "var:bignum 'a' = (0);
             while (ref:var:bignum 'a') < (10) && (true) {
                 ref:var:bignum 'a' = (ref:var:bignum 'a') + (3) + (1);
                 if (ref:var:bignum 'a') == (8) { print*\"eight\"*; }
             }
             print*(ref:var:bignum 'a')*;"
        ),
        "eight\n12\n"
    );
}

#[test]
fn bigints_run_and_are_freed() {
    assert_eq!(
        entry(
            "var:bigint 'a' = (7); var:bigint 'b' = (2) xx (10) + (1); var:bigint 't' = (2);
             print*(ref:var:bigint 'a') x (ref:var:bigint 'b') - (5) \" \" (ref:var:bigint 'b') / (2) \" \" (ref:var:bigint 'a')! \" \" -(ref:var:bigint 'a') \" \" (ref:var:bigint 't') xxx (3)*;
             while (ref:var:bigint 'a') > (0) { ref:var:bigint 'a' = (ref:var:bigint 'a') - (3) - (1); }
             print*(ref:var:bigint 'a')*;"
        ),
        "7170 512 5040 -7 16\n-1\n"
    );
}

#[test]
fn texts_run_and_are_freed() {
    assert_eq!(
        entry(
            "var:str 's' = (\"\"); var:num 'i' = (0);
             while (ref:var:num 'i') < (3) {
                 ref:var:str 's' = (ref:var:str 's') stch (ref:var:num 'i') stch (\",\");
                 ref:var:num 'i' = (ref:var:num 'i') + (1);
             }
             var:bignum 'b' = (1.5); var:bool 't' = (true); var:int 'n' = (9);
             print*(ref:var:str 's') stch (ref:var:bignum 'b') stch (ref:var:bool 't') stch (ref:var:int 'n')*;"
        ),
        "0,1,2,1.5true9\n"
    );
}

#[test]
fn functions_own_their_parameters_and_results() {
    assert_eq!(
        shows(
            "func 'greet'*'who': str* -> str { return (\"hi \") stch (ref:var:str 'who'); }
             func 'same'*'b': bignum* -> bignum { if (ref:var:bignum 'b') < (0) { return (0); } return (ref:var:bignum 'b'); }
             func 'fact'*'n': bigint* -> bigint {
                 if (ref:var:bigint 'n') < (2) { return (1); }
                 return (ref:var:bigint 'n') x >> 'fact'*(ref:var:bigint 'n') - (1)*;
             }
             func 'quiet'*'a': array:str* { var:str 'x' = (ref:var:array:str 'a'*(1)*); }
             START
                 print*>> 'greet'*(\"you\")* \" \" >> 'same'*(4)* \" \" >> 'fact'*(10)**;
                 >> 'greet'*(\"nobody\")*;
                 >> 'quiet'*{(\"p\"), (\"q\")}*;
                 var:str 'g' = >> 'greet'*(\"me\")*;
                 print*(ref:var:str 'g')*;
             END"
        ),
        "hi you 4 3628800\nhi me\n"
    );
}

#[test]
fn arrays_are_independent_and_freed() {
    assert_eq!(
        entry(
            "var:array:str 'a' = {(\"x\"), (\"y\")};
             var:array:str 'b' = (ref:var:array:str 'a');
             append*(ref:var:array:str 'b'), (\"z\") stch (1)*;
             ref:var:array:str 'b'*(1)* = (\"new\");
             ref:var:array:str 'a' = (ref:var:array:str 'a');
             print*(ref:var:array:str 'a'*(1)*) \" \" (ref:var:array:str 'b'*(1)*) \" \" (ref:var:array:str 'b'*(3)*) \" \" (length*ref:var:array:str 'b'*) \" \" (length*ref:var:array:str 'a'*)*;"
        ),
        "x new z1 3 2\n"
    );
    assert_eq!(
        entry(
            "var:array:bignum 'a' = {(1), (2.5)}; append*(ref:var:array:bignum 'a'), (ref:var:array:bignum 'a'*(2)*) x (2)*;
             var:array:bigint 'c' = {(5)}; ref:var:array:bigint 'c'*(1)* = (ref:var:array:bigint 'c'*(1)*) + (1);
             var:array:int 'd' = {(1) + (2)} [precision:8]; var:array:bool 'e' = {(true)};
             print*(ref:var:array:bignum 'a'*(3)*) \" \" (ref:var:array:bigint 'c'*(1)*) \" \" (ref:var:array:int[precision:8] 'd'*(1)*) \" \" (ref:var:array:bool 'e'*(1)*)*;"
        ),
        "5 6 3 true\n"
    );
}

#[test]
fn an_index_out_of_range_stops_the_program() {
    assert_eq!(stops("var:array:num 'a' = {(1)}; print*(ref:var:array:num 'a'*(0)*)*;"), "index 0 out of range");
    assert_eq!(stops("var:array:num 'a' = {(1)}; print*(ref:var:array:num 'a'*(2)*)*;"), "index 2 out of range");
}

#[test]
fn files_are_read_and_written() {
    let ran = run_with(
        "START
             var:file 'f' = (\"out\"); print*\"100% \" (1)* [to*(ref:var:file 'f')*]; overwrite*\"second\"* [to*(\"two\")*];
             read*(\"in\")*; input:str 's' [from*(\"in\")*]; input:num 'n' [from*(\"num\")*]; input:str 'l'; input:num 'm';
             print*(ref:var:str 's') \"|\" (ref:var:num 'n') \"|\" (ref:var:str 'l') \"|\" (ref:var:num 'm')*;
             input:str 's'; clock:num 'c'; print*(ref:var:str 's') (ref:var:num 'c')*;
         END",
        &["line", "4.5", "again"],
        &[("in", "text\n"), ("num", " 7 ")],
    );
    assert_eq!(ran.outcome, Ok(Val::Int(0)));
    assert_eq!(ran.shown, "text\n\ntext\n|7|line|4.5\nagain0.5\n");
    assert_eq!(ran.files["out"], "100% 1\n");
    assert_eq!(ran.files["two"], "second\n");
}

#[test]
fn inner_variables_hide_outer_ones_and_go_away() {
    assert_eq!(
        entry(
            "var:str 's' = (\"outer\");
             if (true) { var:str 's' = (\"inner\"); print*(ref:var:str 's')*; }
             print*(ref:var:str 's')*;
             var:str 's' = (ref:var:str 's') stch (\"!\"); print*(ref:var:str 's')*;"
        ),
        "inner\nouter\nouter!\n"
    );
}

#[test]
fn a_return_from_a_loop_frees_everything() {
    assert_eq!(
        shows(
            "func 'f'*'n': bignum* -> str {
                 var:str 's' = (\"a\");
                 while (ref:var:bignum 'n') < (10) {
                     var:bignum 'k' = (ref:var:bignum 'n') + (1);
                     if (ref:var:bignum 'k') > (4) { return (ref:var:str 's') stch (ref:var:bignum 'k'); }
                     ref:var:bignum 'n' = (ref:var:bignum 'k');
                 }
                 return (ref:var:str 's');
             }
             START print*>> 'f'*(0)* >> 'f'*(20)**; END"
        ),
        "a5a\n"
    );
}

#[test]
fn a_return_ends_the_program() {
    assert_eq!(entry("print*\"a\"*; if (true) { var:str 's' = (\"x\"); return; } print*\"b\"*;"), "a\n");
}

#[test]
fn truth_values_run() {
    assert_eq!(
        entry("var:bool 'a' = (1) < (2) && not (false); print*(ref:var:bool 'a') \" \" (ref:var:bool 'a') == (false) \" \" (false) || (ref:var:bool 'a')*;"),
        "true false true\n"
    );
}

#[test]
fn a_stitched_literal_keeps_its_value() {
    assert_eq!(entry("var:int 'a' = (7) [precision:8]; print*(ref:var:int[precision:8] 'a') stch (200)*;"), "7200\n");
}

#[test]
fn an_if_runs_one_branch_and_a_while_as_often_as_its_condition_holds() {
    let choose = |c: &str| entry(&format!("if ({c}) {{ print*\"yes\"*; }} else {{ print*\"no\"*; }} print*\"on\"*;"));
    assert_eq!(choose("true"), "yes\non\n");
    assert_eq!(choose("false"), "no\non\n");
    assert_eq!(entry("if (false) { print*\"yes\"*; } print*\"on\"*;"), "on\n");
    assert_eq!(entry("while (false) { print*\"in\"*; } print*\"on\"*;"), "on\n");
    assert_eq!(
        entry(
            "var:int 'i' = (0);
             while (ref:var:int 'i') < (2) {
                 if (ref:var:int 'i') == (1) { print*\"one\"*; } else { print*\"other\"*; }
                 ref:var:int 'i' = (ref:var:int 'i') + (1);
             }"
        ),
        "other\none\n"
    );
}

#[test]
fn a_wider_target_computes_in_64_bits() {
    assert_eq!(
        entry("var:int 'x' = (100) [precision:8]; var:int 'y' = (ref:var:int[precision:8] 'x') + (300); print*(ref:var:int 'y')*;"),
        "400\n"
    );
    assert_eq!(
        entry("var:int 'x' = -(100) [precision:8]; var:int 'y' = (ref:var:int[precision:8] 'x') + (200) [precision:8]; print*(ref:var:int[precision:8] 'y')*;"),
        "100\n"
    );
}
