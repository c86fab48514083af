use amm::color::{code_error_text, error_msg_text};
use amm::parser::Parser;
use amm::printer::program_to_source;
use amm::prompt::is_end;
use amm::scanner::Scanner;

fn reprint(src: &str) -> String {
    let mut scanner = Scanner::new(src);
    let tokens = scanner.scan_tokens().clone();
    assert!(scanner.errors().is_empty());
    let mut parser = Parser::new(tokens);
    let stmts = parser.parse();
    assert!(parser.errors().is_empty());
    program_to_source(&stmts)
}

#[test]
fn pretty_printed_program_parses_back_to_the_same_tree() {
    let programs = [
        "var a = 1; var b; print a + b * (2 - -3) / 4;",
        "{ var x = \"s\"; x = x + \"t\"; } if (a and !b or c) print 1; else { print 2; }",
        "while (i <= 10) i = i + 1; print 2.50 >= 1; print nil; print true; a = b = c;",
        "if (a) if (b) print 1; else print 2;",
    ];
    for src in programs {
        let once = reprint(src);
        let twice = reprint(&once);
        assert_eq!(once, twice, "{}", src);
    }
}

#[test]
fn pretty_printed_program_text() {
    assert_eq!(
        reprint("var a=1;{print (a+2)*3;}while(a<3)a=a+1;if(a)print\"x\";else print nil;"),
        "var a = 1;\n{ print (a + 2) * 3; }\nwhile (a < 3) a = a + 1;\nif (a) print \"x\"; else print nil;\n"
    );
}

#[test]
fn blank_lines_end_the_prompt() {
    assert!(is_end(""));
    assert!(is_end("  \t\r\n"));
    assert!(!is_end("  x\n"));
    assert!(!is_end("print 1;\n"));
}

#[test]
fn error_lines() {
    assert_eq!(
        error_msg_text("Usage: amm [File]"),
        "\x1b[38;5;9mError\x1b[0m: \x1b[38;5;1mUsage: amm [File]\x1b[0m"
    );
    assert_eq!(
        code_error_text(12, "Unexpected character."),
        "12: \x1b[38;5;9mError\x1b[0m: \x1b[38;5;1mUnexpected character.\x1b[0m"
    );
}
