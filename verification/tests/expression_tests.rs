use language::value::Value;
use language::vm::{InterpreterResult, VM};

/// An expression, as a test writes one down.
enum Tree {
    Number(u32, u32),
    Negate(Box<Tree>),
    Group(Box<Tree>),
    Binary(Box<Tree>, char, Box<Tree>),
}

struct Random(u64);

impl Random {
    fn next(&mut self, bound: u64) -> u64 {
        self.0 = self.0.wrapping_mul(6364136223846793005).wrapping_add(1442695040888963407);
        (self.0 >> 33) % bound
    }
}

fn level(operator: char) -> u8 {
    if operator == '+' || operator == '-' {
        1
    } else {
        2
    }
}

fn generate(random: &mut Random, depth: u32) -> Tree {
    let choice = if depth == 0 { 0 } else { random.next(6) };
    match choice {
        0 | 1 => Tree::Number(random.next(1000) as u32, random.next(100) as u32),
        2 => Tree::Negate(Box::new(generate(random, depth - 1))),
        _ => {
            let operator = ['+', '-', '*', '/'][random.next(4) as usize];
            Tree::Binary(Box::new(generate(random, depth - 1)), operator, Box::new(generate(random, depth - 1)))
        }
    }
}

/// Writes the tree with the parentheses that its shape needs, so that the
/// text means the tree under the language's precedence rules.
fn write(tree: &Tree, text: &mut String, random: &mut Random) {
    match tree {
        Tree::Number(whole, fraction) => {
            text.push_str(&whole.to_string());
            if *fraction != 0 {
                text.push('.');
                text.push_str(&format!("{:02}", fraction));
            }
        }
        Tree::Negate(operand) => {
            text.push('-');
            if random.next(2) == 0 {
                text.push(' ');
            }
            match **operand {
                Tree::Binary(..) => {
                    text.push('(');
                    write(operand, text, random);
                    text.push(')');
                }
                _ => write(operand, text, random),
            }
        }
        Tree::Group(inner) => {
            text.push('(');
            write(inner, text, random);
            text.push(')');
        }
        Tree::Binary(left, operator, right) => {
            let here = level(*operator);
            match **left {
                Tree::Binary(_, inner, _) if level(inner) < here => {
                    text.push('(');
                    write(left, text, random);
                    text.push(')');
                }
                _ => write(left, text, random),
            }
            text.push(' ');
            text.push(*operator);
            if random.next(4) == 0 {
                text.push_str(" // split\n");
            }
            text.push(' ');
            match **right {
                Tree::Binary(_, inner, _) if level(inner) <= here => {
                    text.push('(');
                    write(right, text, random);
                    text.push(')');
                }
                _ => write(right, text, random),
            }
        }
    }
}

fn literals(tree: &Tree) -> usize {
    match tree {
        Tree::Number(..) => 1,
        Tree::Negate(operand) => literals(operand),
        Tree::Group(inner) => literals(inner),
        Tree::Binary(left, _, right) => literals(left) + literals(right),
    }
}

fn value(tree: &Tree) -> f64 {
    match tree {
        Tree::Number(whole, fraction) => {
            if *fraction == 0 {
                whole.to_string().parse().unwrap()
            } else {
                format!("{}.{:02}", whole, fraction).parse().unwrap()
            }
        }
        Tree::Negate(operand) => -value(operand),
        Tree::Group(inner) => value(inner),
        Tree::Binary(left, operator, right) => {
            let (a, b) = (value(left), value(right));
            match operator {
                '+' => a + b,
                '-' => a - b,
                '*' => a * b,
                _ => a / b,
            }
        }
    }
}

fn same(got: Value, expected: f64) -> bool {
    let got = f64::from_bits(got.bits());
    (got.is_nan() && expected.is_nan()) || got.to_bits() == expected.to_bits()
}

#[test]
fn generated_expressions_evaluate_as_written() {
    let mut random = Random(2024);
    let mut vm = VM::new();
    for round in 0..2000 {
        let tree = generate(&mut random, 1 + (round % 6));
        let mut source = String::new();
        write(&tree, &mut source, &mut random);
        let source_has_newline = source.contains('\n');
        let result = vm.interpret(source.clone());
        if source_has_newline {
            assert!(matches!(result, InterpreterResult::CompileError(_)), "{}", source);
            continue;
        }
        match result {
            InterpreterResult::Success(got) => assert!(same(got, value(&tree)), "{}", source),
            other => panic!("{} gave {:?}", source, other),
        }
        assert_eq!(vm.chunk.constants.len(), literals(&tree));
        assert_eq!(vm.stack_top, 0);
        assert_eq!(vm.ip, vm.chunk.count());
    }
}

#[test]
fn grouped_expressions_evaluate_as_written() {
    let mut random = Random(7);
    let mut vm = VM::new();
    for round in 0..500 {
        let tree = Tree::Group(Box::new(Tree::Negate(Box::new(Tree::Group(Box::new(generate(
            &mut random,
            round % 5,
        )))))));
        let mut source = String::new();
        write(&tree, &mut source, &mut Random(0));
        let source = source.replace(" // split\n", "");
        match vm.interpret(source.clone()) {
            InterpreterResult::Success(got) => assert!(same(got, value(&tree)), "{}", source),
            other => panic!("{} gave {:?}", source, other),
        }
    }
}

#[test]
fn no_source_fails_while_it_runs() {
    let alphabet = [
        "1", "2.5", "+", "-", "*", "/", "(", ")", " ", "\n", "x", "\"", "@", "//", ".", "if", "0", "=", "!", ";",
    ];
    let mut random = Random(99);
    let mut vm = VM::new();
    for _ in 0..5000 {
        let mut source = String::new();
        for _ in 0..random.next(12) {
            source.push_str(alphabet[random.next(alphabet.len() as u64) as usize]);
        }
        match vm.interpret(source.clone()) {
            InterpreterResult::Success(_) => {
                assert_eq!(vm.stack_top, 0);
                assert_eq!(vm.ip, vm.chunk.count());
            }
            InterpreterResult::CompileError(diagnostics) => {
                assert_eq!(diagnostics.len(), 1, "{}", source);
                assert!(diagnostics[0].starts_with("[line "), "{}", source);
                assert_eq!(vm.chunk.count(), 0);
            }
            InterpreterResult::RuntimeError(error) => panic!("{} gave {:?}", source, error),
        }
    }
}
