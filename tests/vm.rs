use minicompiler::ast::Exp;
use minicompiler::parser::Parser;
use minicompiler::vm::{Code, VmError, VM};

// (vm_result, ast_result)
fn eval_both(program: &str) -> (i32, i32) {
    let ast = Parser::new(program).parse().unwrap();
    let ast_result = ast.eval();
    let vm_result = VM::new(ast.compile()).run().unwrap();

    (vm_result, ast_result)
}

#[test]
fn precedence() {
    let (mut vm_result, mut ast_result) = eval_both("1 + 2 * (2+1)");
    assert_eq!(vm_result, ast_result);
    assert_eq!(vm_result, 1 + 2 * (2 + 1)); // 7

    (vm_result, ast_result) = eval_both("2 * (2 + 1)");
    assert_eq!(vm_result, ast_result);
    assert_eq!(vm_result, 2 * (2 + 1)); // 6

    (vm_result, ast_result) = eval_both("1 + 2 * 0 ");
    assert_eq!(vm_result, ast_result);
    assert_eq!(vm_result, 1 + 2 * 0); // 1

    (vm_result, ast_result) = eval_both("1 * 2 + 0 ");
    assert_eq!(vm_result, ast_result);
    assert_eq!(vm_result, 1 * 2 + 0); // 2
}

#[test]
fn constant() {
    let (vm_result, ast_result) = eval_both("1");
    assert_eq!(vm_result, ast_result);
    assert_eq!(vm_result, 1);
}

#[test]
fn long_expr() {
    let (mut vm_result, mut ast_result) = eval_both("1+  1+   1+1+ 1 +1 + 1+  1");
    assert_eq!(vm_result, ast_result);
    assert_eq!(vm_result, 1 + 1 + 1 + 1 + 1 + 1 + 1 + 1); // 8

    (vm_result, ast_result) =
        eval_both("2*2*2*2*2*2*2*2*2*2*2*2*2*2*2*2*2*2*2*2*2*2*2*2*2*2*2*2*2*2");
    assert_eq!(vm_result, ast_result);
    assert_eq!(vm_result, 1 << 30); // 2^30 = 1073741824
}

#[test]
fn complicated_expr() {
    let (mut vm_result, mut ast_result) = eval_both("2*((2*1)*2) + (2*2)*1 + 0 + 0*0");
    assert_eq!(vm_result, ast_result);
    assert_eq!(vm_result, 2 * ((2 * 1) * 2) + (2 * 2) * 1 + 0 + 0 * 0); // 12

    (vm_result, ast_result) = eval_both("(2) + (2*2+0) * (2)+2+ (2*2)*1");
    assert_eq!(vm_result, ast_result);
    assert_eq!(vm_result, (2) + (2 * 2 + 0) * (2) + 2 + (2 * 2) * 1); // 16

    (vm_result, ast_result) = eval_both("(2*1*2) + (2) + 2 * (2+1)*(0*1+1)");
    assert_eq!(vm_result, ast_result);
    assert_eq!(vm_result, (2 * 1 * 2) + (2) + 2 * (2 + 1) * (0 * 1 + 1)); // 12

    (vm_result, ast_result) = eval_both("(1+2)*(0*2+2*2+1)");
    assert_eq!(vm_result, ast_result);
    assert_eq!(vm_result, (1 + 2) * (0 * 2 + 2 * 2 + 1)); // 15

    (vm_result, ast_result) = eval_both("((2+2) + (2*2+1)) * (1+1+2+1)");
    assert_eq!(vm_result, ast_result);
    assert_eq!(vm_result, ((2 + 2) + (2 * 2 + 1)) * (1 + 1 + 2 + 1)); // 45
}

#[test]
fn malformed() {
    let mut code = vec![Code::Plus, Code::Push(1), Code::Push(2)];
    assert!(VM::new(code).run().is_err());

    code = vec![Code::Push(1), Code::Push(2), Code::Plus, Code::Plus];
    assert!(VM::new(code).run().is_err());

    code = Vec::new();
    assert!(VM::new(code).run().is_err());
}

#[test]
fn faults_name_line_and_operation() {
    assert_eq!(
        VM::new(vec![Code::Plus, Code::Push(1), Code::Push(2)]).run(),
        Err(VmError::StackUnderflow { line: 0, op: Code::Plus })
    );
    assert_eq!(
        VM::new(vec![Code::Push(1), Code::Push(2), Code::Plus, Code::Mult]).run(),
        Err(VmError::StackUnderflow { line: 3, op: Code::Mult })
    );
    assert_eq!(VM::new(Vec::new()).run(), Err(VmError::MissingResult { len: 0 }));
}

#[test]
fn leftover_values_are_ignored() {
    assert_eq!(VM::new(vec![Code::Push(1), Code::Push(2)]).run(), Ok(2));
    assert_eq!(VM::new(vec![Code::Push(7), Code::Push(2), Code::Push(3), Code::Mult]).run(), Ok(6));
}

#[test]
fn operands_keep_their_order() {
    let code = vec![Code::Push(2), Code::Push(-3), Code::Mult, Code::Push(10), Code::Plus];
    assert_eq!(VM::new(code).run(), Ok(4));
}

#[test]
fn machine_arithmetic_wraps_around() {
    let code = vec![Code::Push(i32::MAX), Code::Push(1), Code::Plus];
    assert_eq!(VM::new(code).run(), Ok(i32::MIN));
    let code = vec![Code::Push(65536), Code::Push(65536), Code::Mult];
    assert_eq!(VM::new(code).run(), Ok(0));
}

#[test]
fn running_twice_gives_the_same_outcome() {
    let ast = Parser::new("(2+1)*2+1").parse().unwrap();
    let mut vm = VM::new(ast.compile());
    let first = vm.run();
    let second = vm.run();
    assert_eq!(first, Ok(7));
    assert_eq!(first, second);
    let mut broken = VM::new(vec![Code::Mult]);
    assert_eq!(broken.run(), broken.run());
}

#[test]
fn long_chain_has_the_fixed_width_result() {
    let input = "2*".repeat(31) + "2";
    let (vm_result, ast_result) = eval_both(&input);
    assert_eq!(vm_result, ast_result);
    assert_eq!(vm_result, 0);
    let input = "2*".repeat(30) + "2";
    assert_eq!(eval_both(&input).0, i32::MIN);
}

#[test]
fn fault_messages() {
    let err = VM::new(vec![Code::Push(1), Code::Push(2), Code::Plus, Code::Plus]).run().unwrap_err();
    assert_eq!(err.message(), "L3 PLUS: not enough values on stack. Expected two");
    let err = VM::new(vec![Code::Mult]).run().unwrap_err();
    assert_eq!(err.message(), "L0 MULT: not enough values on stack. Expected two");
    let err = VM::new(vec![]).run().unwrap_err();
    assert_eq!(err.message(), "L0 No return value found on stack");
}

#[test]
fn machine_text_shows_program_and_stack() {
    let mut vm = VM::new(vec![Code::Push(1), Code::Push(-2), Code::Plus, Code::Push(12)]);
    assert_eq!(vm.show(), "Code: Push 1;Push -2;Plus;Push 12Stack: ");
    assert_eq!(vm.run(), Ok(12));
    assert_eq!(vm.show(), "Code: Push 1;Push -2;Plus;Push 12Stack: -1,12");
    assert_eq!(VM::new(Vec::new()).show(), "Code: Stack: ");
}
