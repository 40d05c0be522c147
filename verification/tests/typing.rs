use cyborgpl::ast::{ElementType, Type};
use cyborgpl::driver::parse_source;
use cyborgpl::typecheck::{coercible, TypeChecker};

fn problems(source: &str) -> Vec<String> {
    let program = parse_source(source).unwrap_or_else(|e| panic!("{e}"));
    match TypeChecker::check_program(&program) {
        Ok(()) => vec![],
        Err(e) => e,
    }
}

fn entry(body: &str) -> Vec<String> {
    problems(&format!("START {body} END"))
}

fn accepted(body: &str) {
    assert_eq!(entry(body), Vec::<String>::new(), "{body}");
}

fn refused(body: &str, message: &str) {
    assert_eq!(entry(body), vec![message.to_string()], "{body}");
}

#[test]
fn values_go_where_their_kind_goes() {
    let all = [
        Type::Num(16),
        Type::Num(64),
        Type::NumW(128),
        Type::Bool,
        Type::Str,
        Type::File,
        Type::BigNum(256),
        Type::BigInt,
        Type::Int(8),
        Type::Int(64),
        Type::Array(ElementType::Num(64)),
        Type::Array(ElementType::Int(64)),
        Type::Void,
    ];
    let kind = |t: Type| match t {
        Type::Num(_) | Type::NumW(_) => 0,
        Type::Bool => 1,
        Type::Str | Type::File => 2,
        Type::BigNum(_) => 3,
        Type::BigInt => 4,
        Type::Int(_) => 5,
        Type::Array(ElementType::Num(_)) => 6,
        Type::Array(_) => 7,
        Type::Void => 8,
    };
    for from in all {
        for to in all {
            let expected = match to {
                Type::Void => false,
                // Numbers promote into a bignum, and a text is parsed into one.
                Type::BigNum(_) => matches!(kind(from), 0 | 3) || from == Type::Str,
                _ => kind(from) == kind(to),
            };
            assert_eq!(coercible(from, to), expected, "{from:?} {to:?}");
        }
    }
}

#[test]
fn numbers_and_number_words_mix() {
    accepted(
        "var:num 'a' = (1) [precision:16]; var:numw 'b' = '2 million' [precision:128];
         var:num 'c' = (ref:var:num[precision:16] 'a') + (ref:var:numw[precision:128] 'b');
         ref:var:num[precision:16] 'a' = (ref:var:num 'c');",
    );
}

#[test]
fn bignums_mix_with_numbers_and_texts() {
    accepted(
        "var:bignum 'n' = (\"12345678901234567890\"); var:bignum 'm' = (ref:var:bignum 'n') - (1);
         if (ref:var:bignum 'm') < (ref:var:bignum 'n') { print*(ref:var:bignum 'm')!*; }",
    );
}

#[test]
fn texts_and_files_are_interchangeable() {
    accepted(
        "var:file 'f' = (\"/tmp/x\"); var:str 's' = (ref:var:file 'f'); print*\"x\"* [to*(ref:var:str 's')*];
         overwrite*(1)* [to*(ref:var:file 'f')*]; read*(ref:var:file 'f')*; input:str 't' [from*(ref:var:str 's')*];",
    );
}

#[test]
fn ints_are_kept_apart() {
    refused(
        "var:int 'a' = (1); var:num 'b' = (ref:var:int 'a');",
        "cannot assign int[precision:64] to variable 'b' declared as num[precision:64]",
    );
    refused(
        "var:num 'a' = (1); var:int 'b' = (ref:var:num 'a');",
        "cannot assign num[precision:64] to variable 'b' declared as int[precision:64]",
    );
    refused(
        "var:int 'a' = (1); var:num 'b' = (1); print*(ref:var:int 'a') + (ref:var:num 'b')*;",
        "+ used with mismatched operand types int[precision:64] / num[precision:64]",
    );
    accepted("var:int 'a' = (1) [precision:8]; var:int 'b' = (ref:var:int[precision:8] 'a') + (1);");
}

#[test]
fn bigints_are_kept_apart() {
    refused(
        "var:bigint 'a' = (1); var:bignum 'b' = (ref:var:bigint 'a');",
        "cannot assign bigint to variable 'b' declared as bignum[precision:256]",
    );
    refused(
        "var:bigint 'a' = (1); var:int 'b' = (1); print*(ref:var:bigint 'a') x (ref:var:int 'b')*;",
        "x used with mismatched operand types bigint / int[precision:64]",
    );
    refused("var:bigint 'a' = (1.5);", "1.5 is not a whole number, can't use it as bigint");
    accepted("var:bigint 'a' = (99999999999999999999999); print*(ref:var:bigint 'a') xx (3) + (5) x (ref:var:bigint 'a') xxx (2)*;");
}

#[test]
fn fractions_are_no_ints() {
    refused("var:int 'x' = (5.5);", "5.5 is not a whole number, can't use it as int");
    refused(
        "var:int 'x' = (1); print*(ref:var:int 'x') + (2.5)*;",
        "2.5 is not a whole number, can't use it as int",
    );
    accepted("var:int 'x' = (5.0);");
}

#[test]
fn literals_that_do_not_fit() {
    refused("var:int 'x' = (128) [precision:8];", "128 doesn't fit in int[precision:8]");
    accepted("var:int 'x' = (127) [precision:8];");
    refused("var:int 'x' = (9223372036854775808);", "9223372036854775808 doesn't fit in int[precision:64]");
    accepted("var:int 'x' = (9223372036854775807);");
    refused(
        "var:int 'x' = (1) [precision:8]; print*(ref:var:int[precision:8] 'x') + (300)*;",
        "300 doesn't fit in int[precision:8]",
    );
}

#[test]
fn overflow_of_literals_is_caught_early() {
    let message = "int overflow: the value of this expression doesn't fit in int[precision:64]";
    refused("var:int 'x' = (5000000000) x (5000000000);", message);
    refused("var:int 'x' = (10) xx (19);", message);
    refused("var:int 'x' = (21)!;", message);
    refused("var:int 'x' = (9223372036854775807) + (1) - (1);", message);
    accepted("var:int 'x' = (3000000000) x (3000000000);");
    accepted("var:int 'x' = (10) xx (18);");
    accepted("var:int 'x' = (20)!;");
    refused(
        "var:int 'x' = (100) + (100) [precision:8];",
        "int overflow: the value of this expression doesn't fit in int[precision:8]",
    );
    accepted("var:int 'x' = -(128) [precision:8];");
    accepted("var:int 'y' = (9223372036854775807); var:int 'x' = (ref:var:int 'y') + (1);");
}

#[test]
fn the_type_at_a_reference_must_be_right() {
    refused(
        "var:num 'a' = (1); print*(ref:var:str 'a')*;",
        "'a' is declared as num[precision:64], not str -- check the type stated at this reference",
    );
    refused("print*(ref:var:num 'a')*;", "undefined variable 'a'");
    refused("ref:var:num 'a' = (1);", "assignment to undeclared variable 'a' of type num[precision:64]");
}

#[test]
fn variables_of_different_types_share_a_name() {
    accepted("var:num 'a' = (1); var:str 'a' = (\"x\"); print*(ref:var:num 'a') (ref:var:str 'a')*;");
}

#[test]
fn variables_end_with_their_block() {
    refused("if (true) { var:num 'a' = (1); } print*(ref:var:num 'a')*;", "undefined variable 'a'");
    refused("while (false) { var:num 'a' = (1); } print*(ref:var:num 'a')*;", "undefined variable 'a'");
}

#[test]
fn operators_need_fitting_operands() {
    refused("print*(true) + (true)*;", "+ not supported on bool operands");
    refused("var:num 'a' = (1); print*(ref:var:num 'a') && (1)*;", "&& requires bool operands, not num");
    refused(
        "var:int 'a' = (1); print*(ref:var:int 'a') || (ref:var:int 'a')*;",
        "|| requires bool operands, not int",
    );
    refused(
        "var:bigint 'a' = (1); print*(ref:var:bigint 'a') || (ref:var:bigint 'a')*;",
        "|| requires bool operands, not bigint",
    );
    refused(
        "var:bignum 'a' = (1); print*(ref:var:bignum 'a') && (ref:var:bignum 'a')*;",
        "&& not supported on bignum yet",
    );
    refused("print*(\"a\") + (\"b\")*;", "+ used with mismatched operand types str / str");
    refused("print*-(true)*;", "- not supported on bool");
    refused("print*not (1)*;", "not not supported on num[precision:64]");
    refused("print*(\"a\")!*;", "! not supported on str");
}

#[test]
fn conditions_are_truth_values() {
    refused("if (1) { }", "condition must be bool, got num[precision:64]");
    refused("while (\"a\") { }", "condition must be bool, got str");
    accepted("var:bigint 'a' = (1); while (ref:var:bigint 'a') < (3) && (true) { }");
}

#[test]
fn calls_are_checked() {
    let f = "func 'f'*'a': num, 'b': int* -> str { return (\"x\"); } func 'n'** { } ";
    let run = |body: &str| problems(&format!("{f} START {body} END"));
    assert!(run("print*>> 'f'*(1), (2)**;").is_empty());
    assert!(run(">> 'n'**;").is_empty());
    assert_eq!(run("print*>> 'g'*(1)**;"), vec!["undefined function 'g'"]);
    assert_eq!(run("print*>> 'f'*(1)**;"), vec!["function 'f' expects 2 argument(s), got 1"]);
    assert_eq!(
        run("print*>> 'f'*(true), (2)**;"),
        vec!["function 'f' argument type mismatch: expected num[precision:64], got bool"]
    );
    assert_eq!(run("print*>> 'f'*(1), (2.5)**;"), vec!["2.5 is not a whole number, can't use it as int"]);
    assert_eq!(run("print*>> 'n'***;"), vec!["function 'n' returns nothing, can't be used as a value"]);
}

#[test]
fn returns_are_checked() {
    assert_eq!(
        problems("func 'f'** -> num { return (true); } START END"),
        vec!["returning bool but the function is declared to return num[precision:64]"]
    );
    assert_eq!(
        problems("func 'f'** -> num { return; } START END"),
        vec!["bare return in a function declared to return num[precision:64]"]
    );
    assert!(problems("func 'f'** -> bignum { return (1); } func 'g'** { return; } START END").is_empty());
}

#[test]
fn arrays_are_checked() {
    accepted(
        "var:array:int 'a' = {(1), (2) + (3)}; append*(ref:var:array:int 'a'), (4)*;
         ref:var:array:int 'a'*(1)* = (5); print*(ref:var:array:int 'a'*(length*ref:var:array:int 'a'*)*)*;",
    );
    refused(
        "var:array:int 'a' = {(1), (true)};",
        "cannot use bool as an element of array:int[precision:64]",
    );
    refused(
        "var:array:num 'a' = {}; print*(ref:var:array:num 'a')*;",
        "can't print an array value directly, got array:num[precision:64]",
    );
    refused(
        "var:array:num 'a' = {}; print*(ref:var:array:num 'a'*(true)*)*;",
        "array index must be num, got bool",
    );
    refused(
        "var:num 'a' = (1); print*(ref:var:num 'a'*(1)*)*;",
        "'a' can't be indexed -- declared as num[precision:64], not an array",
    );
    refused("var:num 'a' = (1); print*(length*ref:var:num 'a'*)*;", "length*...* expects an array, got num[precision:64]");
    refused(
        "var:num 'a' = (1); append*(ref:var:num 'a'), (1)*;",
        "append*...*'s first argument must be an array, got num[precision:64]",
    );
    refused(
        "var:array:num 'a' = {}; append*(ref:var:array:num 'a'), (true)*;",
        "cannot append bool to an array of num[precision:64]",
    );
    refused(
        "var:array:num 'a' = {}; ref:var:array:num 'a'*(1)* = (true);",
        "cannot assign bool to array element of type num[precision:64]",
    );
    refused(
        "print*{(1)}*;",
        "array literal needs a known target type here (e.g. a var:array:TYPE declaration, argument, or return)",
    );
    refused(
        "var:array:num 'a' = {}; print*(\"x\") stch (ref:var:array:num 'a')*;",
        "stch doesn't support array operands (str / array:num[precision:64])",
    );
}

#[test]
fn only_array_variables_grow() {
    assert_eq!(
        problems(
            "func 'f'** -> array:num { return {(1)}; }
             START append*>> 'f'**, (1)*; END"
        ),
        vec!["append*...*'s first argument must be an array variable"]
    );
}

#[test]
fn paths_are_texts_or_files() {
    refused("print*(1)* [to*(1)*];", "[to*...*] must be str or file, got num[precision:64]");
    refused("overwrite*(1)* [to*(true)*];", "[to*...*] must be str or file, got bool");
    refused("read*(1)*;", "read*...* must be str or file, got num[precision:64]");
    refused("input:str 'a' [from*(1)*];", "[from*...*] must be str or file, got num[precision:64]");
}

#[test]
fn all_problems_are_reported_in_order() {
    assert_eq!(
        entry("print*(ref:var:num 'a')*; if (1) { print*(ref:var:num 'b')*; }"),
        vec!["undefined variable 'a'", "condition must be bool, got num[precision:64]", "undefined variable 'b'"]
    );
}

#[test]
fn with_a_target_literals_are_computed_in_64_bits() {
    accepted("var:int 'x' = (1) [precision:8]; var:int 'y' = (ref:var:int[precision:8] 'x') + (300);");
    accepted("var:int 'x' = (1) [precision:8]; var:int 'y' = (200) - (ref:var:int[precision:8] 'x') [precision:8];");
    accepted("var:int 'b' = (100) - (50) + (200) - (200) [precision:8];");
    refused(
        "var:int 'x' = (1); var:int 'y' = (ref:var:int 'x') + (9223372036854775808);",
        "9223372036854775808 doesn't fit in int[precision:64]",
    );
}

#[test]
fn stitching_takes_literals_of_any_width() {
    accepted("var:int 'a' = (1) [precision:8]; print*(ref:var:int[precision:8] 'a') stch (200)*;");
    refused(
        "var:int 'a' = (1) [precision:8]; print*(ref:var:int[precision:8] 'a') stch (2.5)*;",
        "2.5 is not a whole number, can't use it as int",
    );
}
