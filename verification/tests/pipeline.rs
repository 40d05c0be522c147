use cyborgpl::compile::Module;
use cyborgpl::codegen::Codegen;
use cyborgpl::lexer::Lexer;
use cyborgpl::parser::Parser;
use cyborgpl::typecheck::TypeChecker;

fn compile(source: &str) -> Result<Module, Vec<String>> {
    let tokens = Lexer::new(source).tokenize().map_err(|e| vec![format!("lex error: {e}")])?;
    let program = Parser::new(tokens).parse_program().map_err(|e| vec![format!("parse error: {e}")])?;
    TypeChecker::check_program(&program)?;
    let mut codegen = Codegen::new("cyborgpl");
    codegen.compile_program(&program).map_err(|e| vec![format!("codegen error: {e}")])?;
    Ok(codegen.module())
}

const DEMO: &str = r#"
    func 'add'*'a': num, 'b': num* -> num {
        return (ref:var:num 'a') + (ref:var:num 'b');
    }

    START
        var:num 'first' = (5);
        var:num 'second' = (2.5);
        if (ref:var:num 'first') < (ref:var:num 'second') {
            print*ref:func 'add'*(ref:var:num 'first'), (ref:var:num 'second')**;
        } else {
            print*(0)*;
        }

        var:str 'greeting' = ("hello, cyborgpl");
        print*(ref:var:str 'greeting')*;

        var:num 'i' = (0);
        while (ref:var:num 'i') < (3) {
            print*(ref:var:num 'i')*;
            ref:var:num 'i' = (ref:var:num 'i') + (1);
        }
    END
"#;

#[test]
fn the_built_in_demo_compiles() {
    let module = compile(DEMO).unwrap_or_else(|e| panic!("{e:?}"));
    assert_eq!(module.name, "cyborgpl");
    assert_eq!(module.functions.len(), 1);
}

#[test]
fn the_readme_example_compiles() {
    let source = r#"
func 'add'*'a': num, 'b': num* -> num {
    return (ref:var:num 'a') + (ref:var:num 'b');
}

START
    var:num 'first' = (5);
    var:num 'second' = (2.5);
    print*"first + second = " (ref:var:num 'first') + (ref:var:num 'second')*;

    var:bignum 'big' = ("3.14159265358979323846264338327950288419716939937510582097494459230781640628620899862803482534211706798214808651328230664709384460955058223172535940812848111745028410270193852110555964462294895493038196");
    print*"pi to 200 digits: " (ref:var:bignum 'big')*;
END
"#;
    assert!(compile(source).is_ok());
}

#[test]
fn the_chaotic_print_compiles() {
    let source = "START\n\nvar:num 'apples🍎' = (42);\nvar:str 'weird_str' = (\"spécial \\tvalue\\n with \\\\backslash\\\\ and a 100% discount\");\nvar:bool 'is_chaotic?!' = (true);\nvar:bignum 'huge💥' = (\"31415926535897932384626433832795028841971693993751\");\n\nprint*\"Chaos test: \\\"quoted\\\", tab:\\there, newline-escaped-below\" (ref:var:str 'weird_str') \"|| 🍎🔥💀 emoji-in-text || num=\" (ref:var:num 'apples🍎') \" || bool=\" (ref:var:bool 'is_chaotic?!') \" || bignum=\" (ref:var:bignum 'huge💥') \" || (num xx 2) x 3 + num xxx 2 = \" (ref:var:num 'apples🍎') xx (2) x (3) + (ref:var:num 'apples🍎') xxx (2) \" || 100% done.\"*;\n\nEND\n";
    assert!(compile(source).is_ok());
}
