use calculator::session::is_quit_command;
use calculator::{respond, EvalError, MathStringParseError, Reply};

fn chars(text: &str) -> Vec<char> {
    text.chars().collect()
}

fn answer(line: &str) -> (i128, i128) {
    match respond(line) {
        Reply::Answer(r) => (r.numerator(), r.denominator()),
        other => panic!("{:?} for {:?}", other, line),
    }
}

#[test]
fn quit_leaves() {
    assert_eq!(respond("quit"), Reply::Quit);
    assert_eq!(respond("quit\n"), Reply::Quit);
    assert_eq!(respond("quit\r\n"), Reply::Quit);
    assert_eq!(respond("  quit  "), Reply::Quit);
    assert_eq!(respond("\t\u{a0}quit\u{3000}\n"), Reply::Quit);
}

#[test]
fn quit_is_case_sensitive() {
    assert_eq!(respond("Quit"), Reply::Rejected(MathStringParseError::NotParsable));
    assert_eq!(respond("QUIT\n"), Reply::Rejected(MathStringParseError::NotParsable));
}

#[test]
fn quit_stands_alone() {
    for line in ["quit now", "q uit", "quit!", "quitquit", "qui", "uit", "quit 1+2", "1+2 quit", ""] {
        assert!(!is_quit_command(&chars(line)), "{:?}", line);
        assert_eq!(respond(line), Reply::Rejected(MathStringParseError::NotParsable), "{:?}", line);
    }
}

#[test]
fn quit_command_is_the_trimmed_word() {
    let alphabet = ['q', 'u', 'i', 't', ' ', '\n', 'x'];
    let mut lines: Vec<String> = vec![String::new()];
    let mut from = 0;
    for _ in 0..6 {
        let until = lines.len();
        for i in from..until {
            for c in alphabet {
                let mut line = lines[i].clone();
                line.push(c);
                lines.push(line);
            }
        }
        from = until;
    }
    assert_eq!(lines.len(), 1 + 7 + 49 + 343 + 2401 + 16807 + 117649);
    let mut quits = 0;
    for line in &lines {
        let quit = line.trim() == "quit";
        assert_eq!(is_quit_command(&chars(line)), quit, "{:?}", line);
        if quit {
            quits += 1;
        }
    }
    // "quit" with 0, 1 or 2 characters of white space around it.
    assert_eq!(quits, 1 + 2 * 2 + 3 * 4);
}

#[test]
fn calculations_are_answered() {
    assert_eq!(answer("1+2"), (3, 1));
    assert_eq!(answer("1-2\n"), (-1, 1));
    assert_eq!(answer(" 1 * 2 "), (2, 1));
    assert_eq!(answer("1/2\n"), (1, 2));
}

#[test]
fn lines_that_are_no_calculation_are_rejected() {
    assert_eq!(respond("abc"), Reply::Rejected(MathStringParseError::NotParsable));
    assert_eq!(respond("1+\n"), Reply::Rejected(MathStringParseError::NotParsable));
    assert_eq!(
        respond("1 % 2\n"),
        Reply::Rejected(MathStringParseError::InvalidOperatorError { operator: '%' })
    );
}

#[test]
fn calculations_without_a_result_fail() {
    assert_eq!(respond("1 / 0\n"), Reply::Failed(EvalError::DivisionByZero));
    assert_eq!(
        respond("170141183460469231731687303715884105728 + 1\n"),
        Reply::Failed(EvalError::Overflow)
    );
}

#[test]
fn large_operands_are_answered() {
    assert_eq!(answer("10000000000000000000 + 1\n"), (10000000000000000001, 1));
    assert_eq!(
        respond("10000000000000000000 % 1\n"),
        Reply::Rejected(MathStringParseError::InvalidOperatorError { operator: '%' })
    );
}
