use cyborgpl::ast::{BinOp, ElementType, Expr, PrintSegment, Program, Stmt, Type, UnOp};
use cyborgpl::driver::parse_source;

fn parse(source: &str) -> Program {
    parse_source(source).unwrap_or_else(|e| panic!("{e}"))
}

fn entry(body: &str) -> Vec<Stmt> {
    parse(&format!("START {body} END")).entry
}

fn error(source: &str) -> String {
    match parse_source(source) {
        Ok(p) => panic!("{p:?}"),
        Err(e) => e,
    }
}

fn entry_error(body: &str) -> String {
    error(&format!("START {body} END"))
}

/// The expression with all its parentheses.
fn full(e: &Expr) -> String {
    match e {
        Expr::Num(t) => t.clone(),
        Expr::Bool(b) => format!("{b}"),
        Expr::Str(s) => format!("{s:?}"),
        Expr::Var(n, t) => format!("{n}:{}", t.to_text()),
        Expr::Unary(UnOp::Factorial, e) => format!("({}!)", full(e)),
        Expr::Unary(op, e) => format!("({} {})", op.to_text(), full(e)),
        Expr::Binary(l, op, r) => format!("({} {} {})", full(l), op.to_text(), full(r)),
        Expr::Call(n, args) => format!("{n}({})", args.iter().map(full).collect::<Vec<String>>().join(", ")),
        Expr::ArrayLiteral(es) => format!("[{}]", es.iter().map(full).collect::<Vec<String>>().join(", ")),
        Expr::ArrayIndex(n, t, i) => format!("{n}:{}[{}]", t.to_text(), full(i)),
        Expr::Length(a) => format!("length {}", full(a)),
    }
}

fn expr(text: &str) -> String {
    match &entry(&format!("var:num 'v' = {text};"))[0] {
        Stmt::VarDecl(_, _, e) => full(e),
        other => panic!("{other:?}"),
    }
}

#[test]
fn products_bind_tighter_than_sums() {
    assert_eq!(expr("(1) + (2) x (3)"), "(1 + (2 x 3))");
    assert_eq!(expr("(1) - (2) - (3)"), "((1 - 2) - 3)");
    assert_eq!(expr("(8) / (4) x (2)"), "((8 / 4) x 2)");
}

#[test]
fn powers_bind_tighter_and_group_to_the_right() {
    assert_eq!(expr("(2) xx (3) xx (2)"), "(2 xx (3 xx 2))");
    assert_eq!(expr("(2) xxx (3) xxx (2)"), "(2 xxx (3 xxx 2))");
    assert_eq!(expr("(2) x (3) xx (2)"), "(2 x (3 xx 2))");
    assert_eq!(expr("(2) xx (3) xxx (2)"), "(2 xx (3 xxx 2))");
}

#[test]
fn comparisons_and_logic_bind_loosest() {
    assert_eq!(expr("(1) + (2) < (3) && (true) || (false)"), "((((1 + 2) < 3) && true) || false)");
    assert_eq!(expr("(1) == (2) not= (true)"), "((1 == 2) not= true)");
}

#[test]
fn signs_and_factorials() {
    assert_eq!(expr("-(5)!"), "(- (5!))");
    assert_eq!(expr("(5)!!"), "((5!)!)");
    assert_eq!(expr("not (true)"), "(not true)");
    assert_eq!(expr("- - (1)"), "(- (- 1))");
}

#[test]
fn text_is_stitched() {
    assert_eq!(expr("(\"a\") stch (1) stch (true)"), "((\"a\" stch 1) stch true)");
}

#[test]
fn both_spellings_of_a_call() {
    let one = expr("ref:func 'f'*(1), ref:func 'g'**, (2)*");
    let other = expr(">> 'f'*(1), >> 'g'**, (2)*");
    assert_eq!(one, "f(1, g(), 2)");
    assert_eq!(one, other);
}

#[test]
fn arrays_in_expressions() {
    assert_eq!(expr("{(1), (2)}"), "[1, 2]");
    assert_eq!(expr("{}"), "[]");
    assert_eq!(expr("(ref:var:array:int 'a'*(1)*)"), "a:array:int[precision:64][1]");
    assert_eq!(expr("(length*ref:var:array:str 'a'*)"), "length a:array:str");
    assert_eq!(expr("(length*>> 'f'***)"), "length f()");
}

#[test]
fn types_have_default_and_chosen_precisions() {
    let stmts = entry(
        "var:num 'a' = (1); var:num 'b' = (1) [precision:16]; var:int 'c' = (1) [precision:8];
         var:bignum 'd' = (1) [precision:300]; var:bigint 'e' = (1); var:array:bignum 'f' = {} [precision:77];
         var:file 'g' = (\"p\"); var:numw 'h' = (1) [precision:128]; var:bool 'i' = (true); var:str 'j' = (\"\");",
    );
    let types: Vec<Type> = stmts
        .iter()
        .map(|s| match s {
            Stmt::VarDecl(_, ty, _) => *ty,
            other => panic!("{other:?}"),
        })
        .collect();
    assert_eq!(
        types,
        vec![
            Type::Num(64),
            Type::Num(16),
            Type::Int(8),
            Type::BigNum(300),
            Type::BigInt,
            Type::Array(ElementType::BigNum(77)),
            Type::File,
            Type::NumW(128),
            Type::Bool,
            Type::Str,
        ]
    );
}

#[test]
fn the_default_precision_of_a_bignum_is_256_bits() {
    match &entry("var:bignum 'a' = (1);")[0] {
        Stmt::VarDecl(_, ty, _) => assert_eq!(*ty, Type::BigNum(256)),
        other => panic!("{other:?}"),
    }
}

#[test]
fn element_types_and_types() {
    for e in [
        ElementType::Num(32),
        ElementType::NumW(64),
        ElementType::Bool,
        ElementType::Str,
        ElementType::BigNum(256),
        ElementType::BigInt,
        ElementType::File,
        ElementType::Int(8),
    ] {
        assert_eq!(ElementType::from_type(e.as_type()), Some(e));
    }
    assert_eq!(ElementType::from_type(Type::Void), None);
    assert_eq!(ElementType::from_type(Type::Array(ElementType::Bool)), None);
}

#[test]
fn statements_of_every_kind() {
    let stmts = entry(
        "input:str 'a'; input:num 'b' [from*(\"f\")*]; clock:num 'c'; ref:var:num 'c' = (1);
         ref:var:array:num 'd'*(1)* = (2); append*(ref:var:array:num 'd'), (3)*; print*\"x\" (1)*;
         print*(1)* [to*(\"f\")*]; overwrite*\"y\"* [to*(\"f\")*]; read*(\"f\")*; >> 'g'**; ref:func 'g'**;
         if (true) { return; } else { return (1); } while (false) { }",
    );
    assert_eq!(stmts.len(), 14);
    assert!(matches!(&stmts[0], Stmt::Input(n, Type::Str, None) if n == "a"));
    assert!(matches!(&stmts[1], Stmt::Input(n, Type::Num(64), Some(_)) if n == "b"));
    assert!(matches!(&stmts[2], Stmt::Clock(n, Type::Num(64)) if n == "c"));
    assert!(matches!(&stmts[3], Stmt::Assign(n, Type::Num(64), _) if n == "c"));
    assert!(matches!(&stmts[4], Stmt::ArrayIndexAssign(n, Type::Array(ElementType::Num(64)), _, _) if n == "d"));
    assert!(matches!(&stmts[5], Stmt::Append(Expr::Var(_, _), Expr::Num(_))));
    assert!(matches!(&stmts[6], Stmt::Print(s, None) if s.len() == 2));
    assert!(matches!(&stmts[7], Stmt::Print(_, Some(Expr::Str(_)))));
    assert!(matches!(&stmts[8], Stmt::Overwrite(_, Expr::Str(_))));
    assert!(matches!(&stmts[9], Stmt::Read(Expr::Str(_))));
    assert!(matches!(&stmts[10], Stmt::ExprStmt(Expr::Call(_, _))));
    assert!(matches!(&stmts[11], Stmt::ExprStmt(Expr::Call(_, _))));
    assert!(matches!(&stmts[12], Stmt::If(_, a, Some(b)) if a.len() == 1 && b.len() == 1));
    assert!(matches!(&stmts[13], Stmt::While(_, b) if b.is_empty()));
}

#[test]
fn print_mixes_text_and_values() {
    match &entry("print*\"a\" (1) + (2) \"b\" ref:func 'f'**  >> 'g'*(1)**;")[0] {
        Stmt::Print(segments, None) => {
            let shown: Vec<String> = segments
                .iter()
                .map(|s| match s {
                    PrintSegment::Str(t) => format!("{t:?}"),
                    PrintSegment::Expr(e) => full(e),
                })
                .collect();
            assert_eq!(shown, vec!["\"a\"", "(1 + 2)", "\"b\"", "f()", "g(1)"]);
        }
        other => panic!("{other:?}"),
    }
}

#[test]
fn functions_and_links() {
    let p = parse(
        "linkto*(\"/a/b.cyborgsettings\")*;
         func 'f'*'a': num, 'b': array:str* -> bigint { return (1); }
         START END
         func 'g'** { }",
    );
    assert_eq!(p.link_to, Some("/a/b.cyborgsettings".to_string()));
    assert_eq!(p.functions.len(), 2);
    assert_eq!(p.functions[0].name, "f");
    assert_eq!(p.functions[0].params.len(), 2);
    assert_eq!(p.functions[0].params[0].name, "a");
    assert_eq!(p.functions[0].params[0].ty, Type::Num(64));
    assert_eq!(p.functions[0].params[1].ty, Type::Array(ElementType::Str));
    assert_eq!(p.functions[0].return_type, Type::BigInt);
    assert_eq!(p.functions[1].return_type, Type::Void);
    assert!(p.entry.is_empty());
}

#[test]
fn number_words_in_declarations_and_assignments() {
    match &entry("var:numw 'apples' = '1 million';")[0] {
        Stmt::VarDecl(_, Type::NumW(64), Expr::Num(t)) => assert_eq!(t, "1000000"),
        other => panic!("{other:?}"),
    }
    match &entry("ref:var:numw 'apples' = '-2.5 billion';")[0] {
        Stmt::Assign(_, Type::NumW(64), e) => assert_eq!(full(e), "-2500000000"),
        other => panic!("{other:?}"),
    }
    assert_eq!(
        entry_error("var:numw 'a' = '1 zillion';"),
        "parse error: line 1: invalid numw literal '1 zillion': unrecognized magnitude word 'zillion'"
    );
}

#[test]
fn programs_need_one_entry_and_at_most_one_link() {
    assert_eq!(error(""), "parse error: program is missing a START...END entry point");
    assert_eq!(error("START END\nSTART END"), "parse error: line 2: only one START...END block is allowed");
    assert_eq!(
        error("linkto*(\"/a\")*;\nlinkto*(\"/b\")*;"),
        "parse error: line 2: only one linkto*(...)*; directive is allowed"
    );
    assert_eq!(
        error("linkto*(5)*;"),
        "parse error: line 1: linkto*(...)*; expects a literal string, found Num(5.0, \"5\")"
    );
    assert_eq!(error("(5)"), "parse error: line 1: expected 'func', 'linkto', or 'START', found LParen");
}

#[test]
fn values_must_stand_in_parentheses() {
    assert_eq!(
        entry_error("var:num 'a' = 5;"),
        "parse error: line 1: every value must be wrapped in parens -- e.g. (5), (ref:var:num 'x') -- found Num(5.0, \"5\")"
    );
    assert_eq!(
        entry_error("var:num 'a' = (;"),
        "parse error: line 1: expected a value (a number, string, true/false, or ref:var:TYPE 'name') inside '(', \
         found Semicolon"
    );
}

#[test]
fn wrong_types_and_precisions() {
    assert_eq!(entry_error("var:text 'a' = (1);"), "parse error: unknown type 'text'");
    assert_eq!(entry_error("var:array:text 'a' = {};"), "parse error: unknown type 'text'");
    assert_eq!(
        entry_error("var:num 'a' = (1) [precision:24];"),
        "parse error: line 1: num precision must be 16, 32, 64, or 128, found 24"
    );
    assert_eq!(
        entry_error("var:numw 'a' = (1) [precision:8];"),
        "parse error: line 1: numw precision must be 16, 32, 64, or 128, found 8"
    );
    assert_eq!(
        entry_error("var:int 'a' = (1) [precision:128];"),
        "parse error: line 1: int precision must be 8, 16, 32, or 64, found 128"
    );
    assert_eq!(
        entry_error("var:bignum 'a' = (1) [precision:0];"),
        "parse error: line 1: bignum precision must be a positive whole number of bits, found 0"
    );
    assert_eq!(
        entry_error("var:str 'a' = (\"\") [precision:8];"),
        "parse error: line 1: [precision:N] only applies to num, int or bignum, not Str"
    );
    assert_eq!(
        entry_error("var:num 'a' = (1) [width:8];"),
        "parse error: line 1: expected 'precision', found 'width'"
    );
    assert_eq!(
        entry_error("var:num 'a' = (1) [precision:'8'];"),
        "parse error: line 1: expected a precision number, found Quoted(\"8\")"
    );
}

#[test]
fn other_parse_errors() {
    assert_eq!(entry_error("var:num a = (1);"), "parse error: line 1: expected a quoted name like 'x', found Ident(\"a\")");
    assert_eq!(entry_error("var:'num' 'a' = (1);"), "parse error: line 1: expected identifier, found Quoted(\"num\")");
    assert_eq!(entry_error("var:num 'a' (1);"), "parse error: line 1: expected Eq, found LParen");
    assert_eq!(
        entry_error("input:bool 'a';"),
        "parse error: line 1: input: doesn't support bool yet (only str and num)"
    );
    assert_eq!(entry_error("clock:str 'a';"), "parse error: line 1: clock: doesn't support str yet (only num)");
    assert_eq!(
        entry_error("print*;"),
        "parse error: line 1: expected a \"literal\", a value, or the closing '*', found Semicolon"
    );
    assert_eq!(entry_error("overwrite*\"x\"* [from*(\"f\")*];"), "parse error: line 1: expected 'to', found 'from'");
    assert_eq!(error("@"), "lex error: line 1: unexpected character '@'");
}

#[test]
fn operators_as_text() {
    assert_eq!(BinOp::Tetration.to_text(), "xxx");
    assert_eq!(BinOp::Ne.to_text(), "not=");
    assert_eq!(BinOp::Concat.to_text(), "stch");
    assert_eq!(UnOp::Not.to_text(), "not");
    assert_eq!(Type::Array(ElementType::Int(8)).to_text(), "array:int[precision:8]");
    assert_eq!(Type::Void.to_text(), "void");
}
