use cyborgpl::compile::Module;
use cyborgpl::driver::{build_program, parse_source};
use cyborgpl::ir::{Op, Repr, Rt, Test};

fn build(source: &str) -> Module {
    let program = parse_source(source).unwrap_or_else(|e| panic!("{e}"));
    build_program(&program, "m").unwrap_or_else(|e| panic!("{e:?}"))
}

fn entry(body: &str) -> Module {
    build(&format!("START {body} END"))
}

fn calls(m: &Module, f: Rt) -> usize {
    m.code.iter().filter(|i| i.op == Op::Call(f)).count()
}

fn ops(m: &Module) -> Vec<Op> {
    m.code.iter().map(|i| i.op).collect()
}

fn texts(m: &Module, op: Op) -> Vec<String> {
    m.code.iter().filter(|i| i.op == op).map(|i| i.text.clone()).collect()
}

fn position(m: &Module, f: Rt) -> usize {
    m.code.iter().position(|i| i.op == Op::Call(f)).unwrap_or_else(|| panic!("{f:?} is not called"))
}

#[test]
fn an_empty_program_returns_zero() {
    let m = entry("");
    assert_eq!(m.name, "m");
    assert!(m.functions.is_empty());
    assert_eq!(ops(&m), vec![Op::BeginMain, Op::ConstInt(32, 0), Op::Ret]);
    assert_eq!(m.code[2].args, vec![1]);
}

#[test]
fn operands_come_before_their_uses() {
    let m = entry("var:bignum 'a' = (1); while (ref:var:bignum 'a') < (5) { ref:var:bignum 'a' = (ref:var:bignum 'a') + (1); }");
    for (i, inst) in m.code.iter().enumerate() {
        for a in &inst.args {
            assert!(*a < i);
        }
    }
}

#[test]
fn code_behind_the_end_of_a_block_starts_another_one() {
    let m = build(
        "func 'f'*'a': int* -> int { if (ref:var:int 'a') < (2) { return (1); } else { return (2); } }
         START print*>> 'f'*(3)**; END",
    );
    for w in m.code.windows(2) {
        if matches!(w[0].op, Op::Jump | Op::Branch | Op::Ret | Op::RetVoid | Op::Unreachable) {
            assert!(matches!(w[1].op, Op::At | Op::Block | Op::BeginFunction(_) | Op::BeginMain), "{:?}", w[1].op);
        }
    }
}

#[test]
fn printing_builds_one_format() {
    let m = entry("print*\"100% \" (1) \" \" (true) \" \" (\"s\")*;");
    assert_eq!(calls(&m, Rt::Printf), 1);
    let strings = texts(&m, Op::ConstStr);
    assert!(strings.contains(&"100%% %g %s %s\n".to_string()), "{strings:?}");
    assert!(strings.contains(&"true".to_string()));
    assert!(strings.contains(&"false".to_string()));
    assert!(ops(&m).contains(&Op::Select));
}

#[test]
fn ints_print_as_64_bit_numbers() {
    let m = entry("var:int 'a' = (5) [precision:8]; print*(ref:var:int[precision:8] 'a')*;");
    assert!(texts(&m, Op::ConstStr).contains(&"%lld\n".to_string()), "{:?}", texts(&m, Op::ConstStr));
    assert!(ops(&m).contains(&Op::SignExtend(64)));
}

#[test]
fn printing_to_a_file_opens_and_closes_it() {
    for body in ["print*(1)* [to*(\"f\")*];", "overwrite*(1)* [to*(\"f\")*];"] {
        let m = entry(body);
        assert_eq!(calls(&m, Rt::Printf), 0);
        assert!(position(&m, Rt::Fopen) < position(&m, Rt::Fprintf));
        assert!(position(&m, Rt::Fprintf) < position(&m, Rt::Fclose));
        assert!(texts(&m, Op::ConstStr).contains(&"w".to_string()));
    }
}

#[test]
fn reading_a_file_shows_and_frees_it() {
    let m = entry("read*(\"f\")*;");
    assert!(position(&m, Rt::ReadFile) < position(&m, Rt::Printf));
    assert!(position(&m, Rt::Printf) < position(&m, Rt::Free));
}

#[test]
fn input_reads_a_line_a_number_or_a_file() {
    assert_eq!(calls(&entry("input:str 'a';"), Rt::ReadLine), 1);
    assert_eq!(calls(&entry("input:num 'a';"), Rt::ReadNum), 1);
    assert_eq!(calls(&entry("input:str 'a' [from*(\"f\")*];"), Rt::ReadFile), 1);
    let m = entry("input:num 'a' [from*(\"f\")*];");
    assert!(position(&m, Rt::ReadFile) < position(&m, Rt::ParseNum));
    assert_eq!(calls(&entry("clock:num 'a';"), Rt::ClockElapsed), 1);
}

#[test]
fn texts_are_owned_copies() {
    let m = entry("var:str 'a' = (\"x\"); var:str 'b' = (ref:var:str 'a');");
    assert_eq!(calls(&m, Rt::Strdup), 2);
    assert_eq!(calls(&m, Rt::Free), 2);
}

#[test]
fn a_stitched_text_is_adopted() {
    let m = entry("var:str 'a' = (\"x\") stch (1);");
    assert_eq!(calls(&m, Rt::Strdup), 0);
    assert_eq!(calls(&m, Rt::Malloc), 1);
    assert_eq!(calls(&m, Rt::Snprintf), 2);
    assert_eq!(calls(&m, Rt::Free), 1);
}

#[test]
fn a_stitched_text_that_is_shown_is_freed() {
    let m = entry("print*(\"x\") stch (1)*;");
    assert_eq!(calls(&m, Rt::Malloc), 1);
    assert_eq!(calls(&m, Rt::Free), 1);
    assert!(position(&m, Rt::Printf) < position(&m, Rt::Free));
}

#[test]
fn declaring_again_frees_the_old_value() {
    let m = entry("var:str 'a' = (\"x\"); var:str 'a' = (\"y\");");
    assert_eq!(calls(&m, Rt::Strdup), 2);
    assert_eq!(calls(&m, Rt::Free), 2);
}

#[test]
fn assigning_frees_the_old_value() {
    let m = entry("var:bignum 'a' = (1); ref:var:bignum 'a' = (2);");
    assert_eq!(calls(&m, Rt::BignumNew), 2);
    assert_eq!(calls(&m, Rt::BignumFree), 2);
}

#[test]
fn a_block_frees_its_variables() {
    let m = entry("if (true) { var:bigint 'a' = (1); } print*\"done\"*;");
    assert_eq!(calls(&m, Rt::BigintFree), 1);
    assert!(position(&m, Rt::BigintFree) < position(&m, Rt::Printf));
}

#[test]
fn a_return_frees_every_variable_once() {
    let m = build(
        "func 'f'*'s': str* -> num { var:bignum 'b' = (1); if (true) { var:bignum 'c' = (2); return (3); } return (4); }
         START END",
    );
    // Two returns: the inner one frees both bignums and the parameter, the outer one the first bignum and the parameter.
    assert_eq!(calls(&m, Rt::BignumFree), 3);
    assert_eq!(calls(&m, Rt::Free), 2);
}

#[test]
fn a_returned_bignum_is_a_copy_of_its_own() {
    let m = build("func 'f'*'a': bignum* -> bignum { return (ref:var:bignum 'a'); } START END");
    assert_eq!(calls(&m, Rt::BignumNew), 1);
    assert_eq!(calls(&m, Rt::BignumCopy), 1);
    assert_eq!(calls(&m, Rt::BignumFree), 1);
}

#[test]
fn a_bignum_literal_keeps_its_digits() {
    let m = entry("var:bignum 'x' = (999999999999999999999999999999999999999);");
    assert_eq!(texts(&m, Op::ConstStr), vec!["999999999999999999999999999999999999999"]);
    assert_eq!(calls(&m, Rt::BignumSetStr), 1);
    assert_eq!(calls(&m, Rt::BignumSetD), 0);
}

#[test]
fn a_chain_uses_one_handle() {
    for (ty, new, add) in [("bignum", Rt::BignumNew, Rt::BignumAdd), ("bigint", Rt::BigintNew, Rt::BigintAdd)] {
        let a = format!("(ref:var:{ty} 'a')");
        let m = entry(&format!("var:{ty} 'a' = (1); var:{ty} 'b' = {a} + {a} + {a} + {a};"));
        assert_eq!(calls(&m, new), 2, "{ty}");
        assert_eq!(calls(&m, add), 3, "{ty}");
    }
}

#[test]
fn a_chain_of_powers_reuses_the_exponent() {
    let m = entry(
        "var:bigint 'a' = (2); var:bigint 'b' = (ref:var:bigint 'a') xx (ref:var:bigint 'a') xx (ref:var:bigint 'a');",
    );
    assert_eq!(calls(&m, Rt::BigintPow), 2);
    assert_eq!(calls(&m, Rt::BigintNew), 2);
}

#[test]
fn loop_literals_are_made_once_before_the_loop() {
    let m = entry(
        "var:bignum 'a' = (0); while (ref:var:bignum 'a') < (5) { ref:var:bignum 'a' = (ref:var:bignum 'a') + (5); }",
    );
    assert_eq!(texts(&m, Op::ConstFloat), vec!["5"]);
    let made = m.code.iter().position(|i| i.op == Op::ConstFloat).unwrap();
    let head = m.code.iter().position(|i| i.op == Op::At).unwrap();
    assert!(made < head);
}

#[test]
fn mixed_precisions_widen() {
    let m = entry(
        "var:bignum 'a' = (1) [precision:100]; var:bignum 'b' = (1) [precision:300];
         print*(ref:var:bignum[precision:100] 'a') + (ref:var:bignum[precision:300] 'b')*;",
    );
    let sizes: Vec<Op> = ops(&m).into_iter().filter(|o| matches!(o, Op::ConstInt(64, 100 | 300))).collect();
    assert_eq!(sizes, vec![Op::ConstInt(64, 100), Op::ConstInt(64, 300), Op::ConstInt(64, 300)]);
}

#[test]
fn int_arithmetic_is_checked() {
    let m = entry("var:int 'a' = (1); var:int 'b' = (ref:var:int 'a') + (2) - (3) x (ref:var:int 'a');");
    assert_eq!(calls(&m, Rt::AddOverflow), 1);
    assert_eq!(calls(&m, Rt::SubOverflow), 1);
    assert_eq!(calls(&m, Rt::MulOverflow), 1);
    assert_eq!(calls(&m, Rt::IntDie), 3);
    let m = entry("var:int 'a' = (1); var:int 'b' = (ref:var:int 'a') / (2);");
    assert_eq!(calls(&m, Rt::IntDie), 2);
    assert!(ops(&m).contains(&Op::IntDiv));
}

#[test]
fn narrowing_is_checked_and_widening_is_not() {
    let m = entry("var:int 'a' = (1); var:int 'b' = (ref:var:int 'a') [precision:8];");
    assert!(texts(&m, Op::ConstStr).contains(&"int overflow: value doesn't fit in int[precision:8]".to_string()));
    let m = entry("var:int 'a' = (1) [precision:32]; var:int 'b' = (ref:var:int[precision:32] 'a');");
    assert!(!texts(&m, Op::ConstStr).contains(&"int overflow: value doesn't fit in int[precision:64]".to_string()));
}

#[test]
fn arrays_are_copied_deeply() {
    let m = entry("var:array:str 'a' = {(\"x\"), (\"y\")}; var:array:str 'b' = (ref:var:array:str 'a');");
    assert_eq!(calls(&m, Rt::ArrayNew), 2);
    assert_eq!(calls(&m, Rt::ArrayAppend), 3);
    assert_eq!(calls(&m, Rt::Strdup), 3);
    assert_eq!(calls(&m, Rt::ArrayFree), 2);
}

#[test]
fn array_indices_count_from_one() {
    let m = entry("var:array:num 'a' = {(1)}; print*(ref:var:array:num 'a'*(1)*)*;");
    assert_eq!(calls(&m, Rt::ArrayGetPtr), 1);
    assert!(ops(&m).contains(&Op::FloatToInt));
}

#[test]
fn calls_convert_their_arguments() {
    let m = build(
        "func 'f'*'a': bignum, 'b': num [precision:16]* { } START >> 'f'*(1), (2)*; END",
    );
    assert_eq!(m.functions.len(), 1);
    assert_eq!(m.functions[0].name, "f");
    assert!(ops(&m).contains(&Op::CallFunction(0)));
    assert!(ops(&m).contains(&Op::FloatTruncate(16)));
    assert_eq!(calls(&m, Rt::BignumNew), 1);
    assert_eq!(calls(&m, Rt::BignumFree), 1);
}

#[test]
fn comparisons_of_numbers() {
    let m = entry("print*(1) <= (2)*;");
    assert!(ops(&m).contains(&Op::FloatTest(Test::Le)));
    let m = entry("var:bigint 'a' = (1); print*(ref:var:bigint 'a') not= (2)*;");
    assert_eq!(calls(&m, Rt::BigintOrder), 1);
    assert!(ops(&m).contains(&Op::IntTest(Test::Ne)));
}

#[test]
fn a_program_with_problems_has_no_code() {
    let program = parse_source("START print*(ref:var:num 'a')*; END").unwrap();
    match build_program(&program, "m") {
        Ok(_) => panic!("there is a problem"),
        Err(e) => assert_eq!(e, vec!["undefined variable 'a'"]),
    }
}

#[test]
fn runtime_functions_are_listed_once() {
    let all = Rt::all();
    assert_eq!(all.len(), 51);
    for (i, f) in all.iter().enumerate() {
        for g in &all[..i] {
            assert_ne!(f.name(), g.name());
        }
    }
    assert_eq!(Rt::BignumOrder.name(), "bignum_cmp");
    assert_eq!(Rt::AddOverflow.name(), "llvm.sadd.with.overflow.i64");
    assert_eq!(Rt::Snprintf.params(), vec![Repr::Ptr, Repr::Int(64), Repr::Ptr]);
    assert_eq!(Rt::Printf.result(), Repr::Int(32));
    assert!(Rt::Printf.variadic() && !Rt::Free.variadic());
}

#[test]
fn a_loop_makes_one_literal_for_one_number() {
    let m = entry(
        "var:bignum 'a' = (0); while (ref:var:bignum 'a') < (5) {
             ref:var:bignum 'a' = (ref:var:bignum 'a') + (1) + (1.0) + (01.00);
         }",
    );
    assert_eq!(texts(&m, Op::ConstFloat), vec!["5", "1"]);
}
