use lox_vm::chunk::Chunk;
use lox_vm::heap::INITIAL_GC_THRESHOLD;
use lox_vm::native::{clock_native, clock_value};
use lox_vm::object::{ObjFun, ObjectError};
use lox_vm::opcode::Opcode;
use lox_vm::run::Displayed;
use lox_vm::semantics::Signal;
use lox_vm::value::{Value, ValueError};
use lox_vm::vm::{RuntimeError, VirtualMachine};

const STEPS: usize = 10_000;

fn number(x: f64) -> Value {
    Value::Number(x.to_bits())
}

fn op(chunk: &mut Chunk, opcode: Opcode) {
    chunk.write(u8::from(opcode), 1);
}

fn op1(chunk: &mut Chunk, opcode: Opcode, a: u8) {
    chunk.write(u8::from(opcode), 1);
    chunk.write(a, 1);
}

fn op2(chunk: &mut Chunk, opcode: Opcode, a: u8, b: u8) {
    chunk.write(u8::from(opcode), 1);
    chunk.write(a, 1);
    chunk.write(b, 1);
}

fn constant(chunk: &mut Chunk, value: Value) -> u8 {
    chunk.add_constant(value).unwrap()
}

fn string(vm: &mut VirtualMachine, chunk: &mut Chunk, text: &str) -> u8 {
    let value = vm.intern(text.to_string());
    constant(chunk, value)
}

fn function(vm: &mut VirtualMachine, chunk: &mut Chunk, fun: ObjFun) -> u8 {
    let value = vm.define_function(fun).unwrap();
    constant(chunk, value)
}

fn named(vm: &mut VirtualMachine, name: &str, arity: u8, upvalue_count: u8) -> ObjFun {
    let name = match vm.intern(name.to_string()) {
        Value::Object(h) => h,
        _ => unreachable!(),
    };
    let mut fun = ObjFun::new(Some(name));
    fun.arity = arity;
    fun.upvalue_count = upvalue_count;
    fun
}

fn show(shown: Displayed) -> String {
    match shown {
        Displayed::Nil => "nil".to_string(),
        Displayed::Bool(b) => format!("{b}"),
        Displayed::Number(bits) => format!("{}", f64::from_bits(bits)),
        Displayed::Text(text) => text,
    }
}

fn compute(opcode: Opcode, a: u64, b: u64) -> u64 {
    let (a, b) = (f64::from_bits(a), f64::from_bits(b));
    let result = match opcode {
        Opcode::Add => a + b,
        Opcode::Sub => a - b,
        Opcode::Mul => a * b,
        Opcode::Div => a / b,
        _ => unreachable!(),
    };
    result.to_bits()
}

/// Runs a program to its end and hands out what it printed.
fn drive(vm: &mut VirtualMachine, fun: ObjFun) -> Result<Vec<String>, RuntimeError> {
    let mut printed = Vec::new();
    let mut signal = vm.interpret(fun, STEPS)?;
    loop {
        signal = match signal {
            Signal::Done => return Ok(printed),
            Signal::Continue => vm.run(STEPS)?,
            Signal::Print(value) => {
                printed.push(show(vm.display(value)));
                vm.run(STEPS)?
            }
            Signal::Arithmetic(opcode, a, b) => vm.resume_with(compute(opcode, a, b), STEPS)?,
        };
    }
}

fn finish(chunk: &mut Chunk) {
    op(chunk, Opcode::Nil);
    op(chunk, Opcode::Ret);
}

#[test]
fn vm_starts_with_the_clock() {
    let vm = VirtualMachine::new();
    assert_eq!(0, vm.stack_len());
    assert_eq!(0, vm.frames_len());
    assert_eq!(40, vm.bytes_allocated());
    assert_eq!(INITIAL_GC_THRESHOLD, vm.next_gc());
}

#[test]
fn arithmetic_follows_precedence() {
    let mut vm = VirtualMachine::new();
    let mut fun = ObjFun::new(None);
    let one = constant(&mut fun.chunk, number(1.0));
    let two = constant(&mut fun.chunk, number(2.0));
    let three = constant(&mut fun.chunk, number(3.0));
    op1(&mut fun.chunk, Opcode::Const, one);
    op1(&mut fun.chunk, Opcode::Const, two);
    op1(&mut fun.chunk, Opcode::Const, three);
    op(&mut fun.chunk, Opcode::Mul);
    op(&mut fun.chunk, Opcode::Add);
    op(&mut fun.chunk, Opcode::Print);
    finish(&mut fun.chunk);
    assert_eq!(vec!["7"], drive(&mut vm, fun).unwrap());
    assert_eq!(0, vm.stack_len());
    assert_eq!(0, vm.frames_len());
}

#[test]
fn strings_are_joined() {
    let mut vm = VirtualMachine::new();
    let mut fun = ObjFun::new(None);
    let hi = string(&mut vm, &mut fun.chunk, "hi");
    let a = string(&mut vm, &mut fun.chunk, "a");
    let there = string(&mut vm, &mut fun.chunk, " there");
    op1(&mut fun.chunk, Opcode::Const, hi);
    op1(&mut fun.chunk, Opcode::DefineGlobal, a);
    op1(&mut fun.chunk, Opcode::GetGlobal, a);
    op1(&mut fun.chunk, Opcode::Const, there);
    op(&mut fun.chunk, Opcode::Add);
    op(&mut fun.chunk, Opcode::Print);
    finish(&mut fun.chunk);
    assert_eq!(vec!["hi there"], drive(&mut vm, fun).unwrap());
}

#[test]
fn joined_strings_are_interned() {
    let mut vm = VirtualMachine::new();
    let mut fun = ObjFun::new(None);
    let ab = string(&mut vm, &mut fun.chunk, "ab");
    let a = string(&mut vm, &mut fun.chunk, "a");
    let b = string(&mut vm, &mut fun.chunk, "b");
    op1(&mut fun.chunk, Opcode::Const, a);
    op1(&mut fun.chunk, Opcode::Const, b);
    op(&mut fun.chunk, Opcode::Add);
    op1(&mut fun.chunk, Opcode::Const, ab);
    op(&mut fun.chunk, Opcode::EQ);
    op(&mut fun.chunk, Opcode::Print);
    op1(&mut fun.chunk, Opcode::Const, a);
    op1(&mut fun.chunk, Opcode::Const, b);
    op(&mut fun.chunk, Opcode::NE);
    op(&mut fun.chunk, Opcode::Print);
    finish(&mut fun.chunk);
    assert_eq!(vec!["true", "true"], drive(&mut vm, fun).unwrap());
}

#[test]
fn recursion_computes_the_factorial() {
    let mut vm = VirtualMachine::new();
    let mut f = named(&mut vm, "f", 1, 0);
    let one = constant(&mut f.chunk, number(1.0));
    let name = string(&mut vm, &mut f.chunk, "f");
    op1(&mut f.chunk, Opcode::GetLocal, 1);
    op1(&mut f.chunk, Opcode::Const, one);
    op(&mut f.chunk, Opcode::LE);
    op2(&mut f.chunk, Opcode::JumpIfFalse, 0, 4);
    op(&mut f.chunk, Opcode::Pop);
    op1(&mut f.chunk, Opcode::Const, one);
    op(&mut f.chunk, Opcode::Ret);
    op(&mut f.chunk, Opcode::Pop);
    op1(&mut f.chunk, Opcode::GetLocal, 1);
    op1(&mut f.chunk, Opcode::GetGlobal, name);
    op1(&mut f.chunk, Opcode::GetLocal, 1);
    op1(&mut f.chunk, Opcode::Const, one);
    op(&mut f.chunk, Opcode::Sub);
    op1(&mut f.chunk, Opcode::Call, 1);
    op(&mut f.chunk, Opcode::Mul);
    op(&mut f.chunk, Opcode::Ret);

    let mut fun = ObjFun::new(None);
    let f = function(&mut vm, &mut fun.chunk, f);
    let name = string(&mut vm, &mut fun.chunk, "f");
    let five = constant(&mut fun.chunk, number(5.0));
    op1(&mut fun.chunk, Opcode::Closure, f);
    op1(&mut fun.chunk, Opcode::DefineGlobal, name);
    op1(&mut fun.chunk, Opcode::GetGlobal, name);
    op1(&mut fun.chunk, Opcode::Const, five);
    op1(&mut fun.chunk, Opcode::Call, 1);
    op(&mut fun.chunk, Opcode::Print);
    op1(&mut fun.chunk, Opcode::GetGlobal, name);
    op(&mut fun.chunk, Opcode::Print);
    finish(&mut fun.chunk);
    assert_eq!(vec!["120", "<fn f>"], drive(&mut vm, fun).unwrap());
    assert_eq!(0, vm.stack_len());
    assert_eq!(0, vm.frames_len());
}

#[test]
fn closures_share_a_captured_variable() {
    let mut vm = VirtualMachine::new();

    let mut get = named(&mut vm, "get", 0, 1);
    op1(&mut get.chunk, Opcode::GetUpvalue, 0);
    op(&mut get.chunk, Opcode::Ret);

    let mut inc = named(&mut vm, "inc", 0, 1);
    let one = constant(&mut inc.chunk, number(1.0));
    op1(&mut inc.chunk, Opcode::GetUpvalue, 0);
    op1(&mut inc.chunk, Opcode::Const, one);
    op(&mut inc.chunk, Opcode::Add);
    op1(&mut inc.chunk, Opcode::SetUpvalue, 0);
    op(&mut inc.chunk, Opcode::Pop);
    finish(&mut inc.chunk);

    let mut make = named(&mut vm, "make", 0, 0);
    let one = constant(&mut make.chunk, number(1.0));
    let get = function(&mut vm, &mut make.chunk, get);
    let inc = function(&mut vm, &mut make.chunk, inc);
    let inc_name = string(&mut vm, &mut make.chunk, "inc");
    op1(&mut make.chunk, Opcode::Const, one);
    op1(&mut make.chunk, Opcode::Closure, get);
    make.chunk.write(1, 1);
    make.chunk.write(1, 1);
    op1(&mut make.chunk, Opcode::Closure, inc);
    make.chunk.write(1, 1);
    make.chunk.write(1, 1);
    op1(&mut make.chunk, Opcode::DefineGlobal, inc_name);
    op1(&mut make.chunk, Opcode::GetLocal, 2);
    op1(&mut make.chunk, Opcode::Call, 0);
    op(&mut make.chunk, Opcode::Print);
    op1(&mut make.chunk, Opcode::GetGlobal, inc_name);
    op1(&mut make.chunk, Opcode::Call, 0);
    op(&mut make.chunk, Opcode::Pop);
    op1(&mut make.chunk, Opcode::GetLocal, 2);
    op1(&mut make.chunk, Opcode::Call, 0);
    op(&mut make.chunk, Opcode::Print);
    op1(&mut make.chunk, Opcode::GetLocal, 2);
    op(&mut make.chunk, Opcode::Ret);

    let mut fun = ObjFun::new(None);
    let make = function(&mut vm, &mut fun.chunk, make);
    let make_name = string(&mut vm, &mut fun.chunk, "make");
    let g = string(&mut vm, &mut fun.chunk, "g");
    let inc_name = string(&mut vm, &mut fun.chunk, "inc");
    op1(&mut fun.chunk, Opcode::Closure, make);
    op1(&mut fun.chunk, Opcode::DefineGlobal, make_name);
    op1(&mut fun.chunk, Opcode::GetGlobal, make_name);
    op1(&mut fun.chunk, Opcode::Call, 0);
    op1(&mut fun.chunk, Opcode::DefineGlobal, g);
    op1(&mut fun.chunk, Opcode::GetGlobal, g);
    op1(&mut fun.chunk, Opcode::Call, 0);
    op(&mut fun.chunk, Opcode::Print);
    op1(&mut fun.chunk, Opcode::GetGlobal, inc_name);
    op1(&mut fun.chunk, Opcode::Call, 0);
    op(&mut fun.chunk, Opcode::Pop);
    op1(&mut fun.chunk, Opcode::GetGlobal, g);
    op1(&mut fun.chunk, Opcode::Call, 0);
    op(&mut fun.chunk, Opcode::Print);
    finish(&mut fun.chunk);
    assert_eq!(vec!["1", "2", "2", "3"], drive(&mut vm, fun).unwrap());
}

#[test]
fn closing_an_upvalue_twice_changes_nothing() {
    let mut vm = VirtualMachine::new();
    let mut get = named(&mut vm, "get", 0, 1);
    op1(&mut get.chunk, Opcode::GetUpvalue, 0);
    op(&mut get.chunk, Opcode::Ret);

    let mut fun = ObjFun::new(None);
    let seven = constant(&mut fun.chunk, number(7.0));
    let get = function(&mut vm, &mut fun.chunk, get);
    let name = string(&mut vm, &mut fun.chunk, "get");
    op1(&mut fun.chunk, Opcode::Const, seven);
    op1(&mut fun.chunk, Opcode::Closure, get);
    fun.chunk.write(1, 1);
    fun.chunk.write(1, 1);
    op1(&mut fun.chunk, Opcode::DefineGlobal, name);
    op(&mut fun.chunk, Opcode::CloseUpvalue);
    op(&mut fun.chunk, Opcode::Nil);
    op(&mut fun.chunk, Opcode::CloseUpvalue);
    op1(&mut fun.chunk, Opcode::GetGlobal, name);
    op1(&mut fun.chunk, Opcode::Call, 0);
    op(&mut fun.chunk, Opcode::Print);
    finish(&mut fun.chunk);
    assert_eq!(vec!["7"], drive(&mut vm, fun).unwrap());
}

#[test]
fn methods_are_inherited_and_super_is_invoked() {
    let mut vm = VirtualMachine::new();

    let mut greet_a = named(&mut vm, "greet", 0, 0);
    let text = string(&mut vm, &mut greet_a.chunk, "A");
    op1(&mut greet_a.chunk, Opcode::Const, text);
    op(&mut greet_a.chunk, Opcode::Print);
    finish(&mut greet_a.chunk);

    let mut greet_b = named(&mut vm, "greet", 0, 1);
    let text = string(&mut vm, &mut greet_b.chunk, "B");
    let greet = string(&mut vm, &mut greet_b.chunk, "greet");
    op1(&mut greet_b.chunk, Opcode::GetLocal, 0);
    op1(&mut greet_b.chunk, Opcode::GetUpvalue, 0);
    op2(&mut greet_b.chunk, Opcode::SuperInvoke, greet, 0);
    op(&mut greet_b.chunk, Opcode::Pop);
    op1(&mut greet_b.chunk, Opcode::Const, text);
    op(&mut greet_b.chunk, Opcode::Print);
    finish(&mut greet_b.chunk);

    let mut fun = ObjFun::new(None);
    let a = string(&mut vm, &mut fun.chunk, "A");
    let b = string(&mut vm, &mut fun.chunk, "B");
    let greet = string(&mut vm, &mut fun.chunk, "greet");
    let hello = string(&mut vm, &mut fun.chunk, "hello");
    let greet_a = function(&mut vm, &mut fun.chunk, greet_a);
    let greet_b = function(&mut vm, &mut fun.chunk, greet_b);
    op1(&mut fun.chunk, Opcode::Class, a);
    op1(&mut fun.chunk, Opcode::DefineGlobal, a);
    op1(&mut fun.chunk, Opcode::GetGlobal, a);
    op1(&mut fun.chunk, Opcode::Closure, greet_a);
    op1(&mut fun.chunk, Opcode::Method, greet);
    op1(&mut fun.chunk, Opcode::Closure, greet_a);
    op1(&mut fun.chunk, Opcode::Method, hello);
    op(&mut fun.chunk, Opcode::Pop);
    op1(&mut fun.chunk, Opcode::Class, b);
    op1(&mut fun.chunk, Opcode::DefineGlobal, b);
    op1(&mut fun.chunk, Opcode::GetGlobal, a);
    op1(&mut fun.chunk, Opcode::GetGlobal, b);
    op(&mut fun.chunk, Opcode::Inherit);
    op1(&mut fun.chunk, Opcode::GetGlobal, b);
    op1(&mut fun.chunk, Opcode::Closure, greet_b);
    fun.chunk.write(1, 1);
    fun.chunk.write(1, 1);
    op1(&mut fun.chunk, Opcode::Method, greet);
    op(&mut fun.chunk, Opcode::Pop);
    op(&mut fun.chunk, Opcode::CloseUpvalue);
    op1(&mut fun.chunk, Opcode::GetGlobal, b);
    op1(&mut fun.chunk, Opcode::Call, 0);
    op2(&mut fun.chunk, Opcode::Invoke, greet, 0);
    op(&mut fun.chunk, Opcode::Pop);
    op1(&mut fun.chunk, Opcode::GetGlobal, b);
    op1(&mut fun.chunk, Opcode::Call, 0);
    op2(&mut fun.chunk, Opcode::Invoke, hello, 0);
    op(&mut fun.chunk, Opcode::Pop);
    op1(&mut fun.chunk, Opcode::GetGlobal, b);
    op(&mut fun.chunk, Opcode::Print);
    op1(&mut fun.chunk, Opcode::GetGlobal, b);
    op1(&mut fun.chunk, Opcode::Call, 0);
    op(&mut fun.chunk, Opcode::Print);
    finish(&mut fun.chunk);
    assert_eq!(vec!["A", "B", "A", "B", "B instance"], drive(&mut vm, fun).unwrap());
}

#[test]
fn fields_and_bound_methods() {
    let mut vm = VirtualMachine::new();

    let mut init = named(&mut vm, "init", 1, 0);
    let x = string(&mut vm, &mut init.chunk, "x");
    op1(&mut init.chunk, Opcode::GetLocal, 0);
    op1(&mut init.chunk, Opcode::GetLocal, 1);
    op1(&mut init.chunk, Opcode::SetProperty, x);
    op(&mut init.chunk, Opcode::Pop);
    op1(&mut init.chunk, Opcode::GetLocal, 0);
    op(&mut init.chunk, Opcode::Ret);

    let mut get = named(&mut vm, "get", 0, 0);
    let x = string(&mut vm, &mut get.chunk, "x");
    op1(&mut get.chunk, Opcode::GetLocal, 0);
    op1(&mut get.chunk, Opcode::GetProperty, x);
    op(&mut get.chunk, Opcode::Ret);

    let mut fun = ObjFun::new(None);
    let p = string(&mut vm, &mut fun.chunk, "P");
    let init_name = string(&mut vm, &mut fun.chunk, "init");
    let get_name = string(&mut vm, &mut fun.chunk, "get");
    let x = string(&mut vm, &mut fun.chunk, "x");
    let init = function(&mut vm, &mut fun.chunk, init);
    let get = function(&mut vm, &mut fun.chunk, get);
    let nine = constant(&mut fun.chunk, number(9.0));
    let m = string(&mut vm, &mut fun.chunk, "m");
    op1(&mut fun.chunk, Opcode::Class, p);
    op1(&mut fun.chunk, Opcode::DefineGlobal, p);
    op1(&mut fun.chunk, Opcode::GetGlobal, p);
    op1(&mut fun.chunk, Opcode::Closure, init);
    op1(&mut fun.chunk, Opcode::Method, init_name);
    op1(&mut fun.chunk, Opcode::Closure, get);
    op1(&mut fun.chunk, Opcode::Method, get_name);
    op(&mut fun.chunk, Opcode::Pop);
    op1(&mut fun.chunk, Opcode::GetGlobal, p);
    op1(&mut fun.chunk, Opcode::Const, nine);
    op1(&mut fun.chunk, Opcode::Call, 1);
    op1(&mut fun.chunk, Opcode::GetProperty, get_name);
    op1(&mut fun.chunk, Opcode::DefineGlobal, m);
    op1(&mut fun.chunk, Opcode::GetGlobal, m);
    op(&mut fun.chunk, Opcode::Print);
    op1(&mut fun.chunk, Opcode::GetGlobal, m);
    op1(&mut fun.chunk, Opcode::Call, 0);
    op(&mut fun.chunk, Opcode::Print);
    op1(&mut fun.chunk, Opcode::GetGlobal, p);
    op1(&mut fun.chunk, Opcode::Const, nine);
    op1(&mut fun.chunk, Opcode::Call, 1);
    op1(&mut fun.chunk, Opcode::GetProperty, x);
    op(&mut fun.chunk, Opcode::Print);
    finish(&mut fun.chunk);
    assert_eq!(vec!["<fn get>", "9", "9"], drive(&mut vm, fun).unwrap());
}

#[test]
fn operand_stack_overflows_at_257_values() {
    let mut vm = VirtualMachine::new();
    let mut fun = ObjFun::new(None);
    for _ in 0..256 {
        op(&mut fun.chunk, Opcode::Nil);
    }
    finish(&mut fun.chunk);
    let error = drive(&mut vm, fun).unwrap_err();
    assert!(matches!(error, RuntimeError::StackOverflow));
    assert_eq!("Stack overflow.", error.message());
    assert_eq!(256, vm.stack_len());
    vm.reset();
    assert_eq!(0, vm.stack_len());
    assert_eq!(0, vm.frames_len());
}

#[test]
fn operand_stack_holds_256_values() {
    let mut vm = VirtualMachine::new();
    let mut fun = ObjFun::new(None);
    for _ in 0..255 {
        op(&mut fun.chunk, Opcode::Nil);
    }
    for _ in 0..254 {
        op(&mut fun.chunk, Opcode::Pop);
    }
    op(&mut fun.chunk, Opcode::Ret);
    assert!(drive(&mut vm, fun).unwrap().is_empty());
    assert_eq!(0, vm.stack_len());
}

#[test]
fn frame_stack_overflows_at_65_calls() {
    let mut vm = VirtualMachine::new();
    let mut r = named(&mut vm, "r", 0, 0);
    let name = string(&mut vm, &mut r.chunk, "r");
    op1(&mut r.chunk, Opcode::GetGlobal, name);
    op1(&mut r.chunk, Opcode::Call, 0);
    op(&mut r.chunk, Opcode::Ret);

    let mut fun = ObjFun::new(None);
    let r = function(&mut vm, &mut fun.chunk, r);
    let name = string(&mut vm, &mut fun.chunk, "r");
    op1(&mut fun.chunk, Opcode::Closure, r);
    op1(&mut fun.chunk, Opcode::DefineGlobal, name);
    op1(&mut fun.chunk, Opcode::GetGlobal, name);
    op1(&mut fun.chunk, Opcode::Call, 0);
    finish(&mut fun.chunk);
    let error = drive(&mut vm, fun).unwrap_err();
    assert!(matches!(error, RuntimeError::StackOverflow));
    assert_eq!(64, vm.frames_len());
    let trace = vm.trace_calls();
    assert_eq!(64, trace.len());
    assert_eq!(Some("r".to_string()), trace[0].function);
    assert_eq!(Some(1), trace[0].line);
    assert_eq!(None, trace[63].function);
}

#[test]
fn wrong_arity_is_refused() {
    let mut vm = VirtualMachine::new();
    let mut f = named(&mut vm, "f", 2, 0);
    finish(&mut f.chunk);
    let mut fun = ObjFun::new(None);
    let f = function(&mut vm, &mut fun.chunk, f);
    op1(&mut fun.chunk, Opcode::Closure, f);
    op(&mut fun.chunk, Opcode::Nil);
    op1(&mut fun.chunk, Opcode::Call, 1);
    finish(&mut fun.chunk);
    let error = drive(&mut vm, fun).unwrap_err();
    assert!(matches!(error, RuntimeError::InvalidArgumentsCount { arity: 2, argc: 1 }));
    assert_eq!("Expected 2 arguments but got 1.", error.message());
}

#[test]
fn string_plus_number_is_refused() {
    let mut vm = VirtualMachine::new();
    let mut fun = ObjFun::new(None);
    let a = string(&mut vm, &mut fun.chunk, "a");
    let one = constant(&mut fun.chunk, number(1.0));
    op1(&mut fun.chunk, Opcode::Const, a);
    op1(&mut fun.chunk, Opcode::Const, one);
    op(&mut fun.chunk, Opcode::Add);
    finish(&mut fun.chunk);
    let error = drive(&mut vm, fun).unwrap_err();
    assert!(matches!(
        error,
        RuntimeError::Value(ValueError::OperandsMustBeNumbersOrStrings)
    ));
    assert_eq!("Operands must be two numbers or two strings.", error.message());
}

#[test]
fn division_by_zero_is_no_error() {
    let mut vm = VirtualMachine::new();
    let mut fun = ObjFun::new(None);
    let one = constant(&mut fun.chunk, number(1.0));
    let zero = constant(&mut fun.chunk, number(0.0));
    op1(&mut fun.chunk, Opcode::Const, one);
    op1(&mut fun.chunk, Opcode::Const, zero);
    op(&mut fun.chunk, Opcode::Div);
    op(&mut fun.chunk, Opcode::Print);
    op1(&mut fun.chunk, Opcode::Const, zero);
    op1(&mut fun.chunk, Opcode::Const, zero);
    op(&mut fun.chunk, Opcode::Div);
    op(&mut fun.chunk, Opcode::Print);
    op1(&mut fun.chunk, Opcode::Const, zero);
    op1(&mut fun.chunk, Opcode::Const, zero);
    op(&mut fun.chunk, Opcode::Div);
    op1(&mut fun.chunk, Opcode::Const, one);
    op(&mut fun.chunk, Opcode::LT);
    op(&mut fun.chunk, Opcode::Print);
    finish(&mut fun.chunk);
    assert_eq!(vec!["inf", "NaN", "false"], drive(&mut vm, fun).unwrap());
}

#[test]
fn comparisons_and_logic() {
    let mut vm = VirtualMachine::new();
    let mut fun = ObjFun::new(None);
    let one = constant(&mut fun.chunk, number(1.0));
    let two = constant(&mut fun.chunk, number(2.0));
    for opcode in [Opcode::LT, Opcode::LE, Opcode::GT, Opcode::GE, Opcode::EQ, Opcode::NE] {
        op1(&mut fun.chunk, Opcode::Const, one);
        op1(&mut fun.chunk, Opcode::Const, two);
        op(&mut fun.chunk, opcode);
        op(&mut fun.chunk, Opcode::Print);
    }
    op1(&mut fun.chunk, Opcode::Const, one);
    op(&mut fun.chunk, Opcode::Neg);
    op(&mut fun.chunk, Opcode::Print);
    op(&mut fun.chunk, Opcode::Nil);
    op(&mut fun.chunk, Opcode::Not);
    op(&mut fun.chunk, Opcode::Print);
    op(&mut fun.chunk, Opcode::True);
    op(&mut fun.chunk, Opcode::Print);
    op(&mut fun.chunk, Opcode::False);
    op(&mut fun.chunk, Opcode::Not);
    op(&mut fun.chunk, Opcode::Not);
    op(&mut fun.chunk, Opcode::Print);
    op(&mut fun.chunk, Opcode::Nil);
    op(&mut fun.chunk, Opcode::Print);
    finish(&mut fun.chunk);
    assert_eq!(
        vec!["true", "true", "false", "false", "false", "true", "-1", "true", "true", "false", "nil"],
        drive(&mut vm, fun).unwrap()
    );
}

#[test]
fn jumps_do_not_pop_the_condition() {
    let mut vm = VirtualMachine::new();
    let mut fun = ObjFun::new(None);
    let yes = string(&mut vm, &mut fun.chunk, "yes");
    let no = string(&mut vm, &mut fun.chunk, "no");
    op(&mut fun.chunk, Opcode::False);
    op2(&mut fun.chunk, Opcode::JumpIfFalse, 0, 7);
    op(&mut fun.chunk, Opcode::Pop);
    op1(&mut fun.chunk, Opcode::Const, yes);
    op(&mut fun.chunk, Opcode::Print);
    op2(&mut fun.chunk, Opcode::Jump, 0, 4);
    op(&mut fun.chunk, Opcode::Pop);
    op1(&mut fun.chunk, Opcode::Const, no);
    op(&mut fun.chunk, Opcode::Print);
    op(&mut fun.chunk, Opcode::True);
    op2(&mut fun.chunk, Opcode::JumpIfTrue, 0, 1);
    op(&mut fun.chunk, Opcode::Nil);
    op(&mut fun.chunk, Opcode::Print);
    finish(&mut fun.chunk);
    assert_eq!(vec!["no", "true"], drive(&mut vm, fun).unwrap());
}

#[test]
fn locals_and_globals() {
    let mut vm = VirtualMachine::new();
    let mut fun = ObjFun::new(None);
    let one = constant(&mut fun.chunk, number(1.0));
    let two = constant(&mut fun.chunk, number(2.0));
    let a = string(&mut vm, &mut fun.chunk, "a");
    op1(&mut fun.chunk, Opcode::Const, one);
    op1(&mut fun.chunk, Opcode::Const, two);
    op1(&mut fun.chunk, Opcode::SetLocal, 1);
    op(&mut fun.chunk, Opcode::Pop);
    op1(&mut fun.chunk, Opcode::GetLocal, 1);
    op(&mut fun.chunk, Opcode::Print);
    op1(&mut fun.chunk, Opcode::DefineGlobal, a);
    op1(&mut fun.chunk, Opcode::Const, one);
    op1(&mut fun.chunk, Opcode::SetGlobal, a);
    op(&mut fun.chunk, Opcode::Pop);
    op1(&mut fun.chunk, Opcode::GetGlobal, a);
    op(&mut fun.chunk, Opcode::Print);
    finish(&mut fun.chunk);
    assert_eq!(vec!["2", "1"], drive(&mut vm, fun).unwrap());
}

#[test]
fn undefined_names_are_reported() {
    let mut vm = VirtualMachine::new();
    let mut fun = ObjFun::new(None);
    let x = string(&mut vm, &mut fun.chunk, "x");
    op1(&mut fun.chunk, Opcode::GetGlobal, x);
    finish(&mut fun.chunk);
    let error = drive(&mut vm, fun).unwrap_err();
    assert!(matches!(&error, RuntimeError::UndefinedVariable(name) if name == "x"));
    assert_eq!("Undefined variable 'x'.", error.message());
    vm.reset();

    let mut fun = ObjFun::new(None);
    let x = string(&mut vm, &mut fun.chunk, "x");
    op(&mut fun.chunk, Opcode::Nil);
    op1(&mut fun.chunk, Opcode::SetGlobal, x);
    finish(&mut fun.chunk);
    let error = drive(&mut vm, fun).unwrap_err();
    assert!(matches!(&error, RuntimeError::UndefinedVariable(name) if name == "x"));
    vm.reset();

    let mut fun = ObjFun::new(None);
    let c = string(&mut vm, &mut fun.chunk, "C");
    let y = string(&mut vm, &mut fun.chunk, "y");
    op1(&mut fun.chunk, Opcode::Class, c);
    op1(&mut fun.chunk, Opcode::Call, 0);
    op1(&mut fun.chunk, Opcode::GetProperty, y);
    finish(&mut fun.chunk);
    let error = drive(&mut vm, fun).unwrap_err();
    assert!(matches!(&error, RuntimeError::UndefinedProperty(name) if name == "y"));
    assert_eq!("Undefined property 'y'.", error.message());
}

#[test]
fn values_that_are_no_instances_have_no_properties() {
    let cases: [(Opcode, RuntimeError); 3] = [
        (Opcode::GetProperty, RuntimeError::OnlyInstancesHaveProperties),
        (Opcode::SetProperty, RuntimeError::OnlyInstancesHaveFields),
        (Opcode::Invoke, RuntimeError::OnlyInstancesHaveMethods),
    ];
    let texts = [
        "Only instances have properties.",
        "Only instances have fields.",
        "Only instances have methods.",
    ];
    for (i, (opcode, expected)) in cases.into_iter().enumerate() {
        let mut vm = VirtualMachine::new();
        let mut fun = ObjFun::new(None);
        let x = string(&mut vm, &mut fun.chunk, "x");
        op(&mut fun.chunk, Opcode::Nil);
        op(&mut fun.chunk, Opcode::Nil);
        if opcode == Opcode::Invoke {
            op2(&mut fun.chunk, opcode, x, 0);
        } else {
            op1(&mut fun.chunk, opcode, x);
        }
        finish(&mut fun.chunk);
        let error = drive(&mut vm, fun).unwrap_err();
        assert_eq!(format!("{expected:?}"), format!("{error:?}"));
        assert_eq!(texts[i], error.message());
    }
}

#[test]
fn calls_and_classes_are_checked() {
    let mut vm = VirtualMachine::new();
    let mut fun = ObjFun::new(None);
    op(&mut fun.chunk, Opcode::Nil);
    op1(&mut fun.chunk, Opcode::Call, 0);
    finish(&mut fun.chunk);
    let error = drive(&mut vm, fun).unwrap_err();
    assert!(matches!(error, RuntimeError::InvalidCallee));
    assert_eq!("Can only call functions and classes.", error.message());

    let mut vm = VirtualMachine::new();
    let mut fun = ObjFun::new(None);
    let c = string(&mut vm, &mut fun.chunk, "C");
    op(&mut fun.chunk, Opcode::Nil);
    op1(&mut fun.chunk, Opcode::Class, c);
    op(&mut fun.chunk, Opcode::Inherit);
    finish(&mut fun.chunk);
    let error = drive(&mut vm, fun).unwrap_err();
    assert!(matches!(error, RuntimeError::InvalidSuperclass));
    assert_eq!("Superclass must be a class.", error.message());

    let mut vm = VirtualMachine::new();
    let mut fun = ObjFun::new(None);
    let c = string(&mut vm, &mut fun.chunk, "C");
    op1(&mut fun.chunk, Opcode::Class, c);
    op(&mut fun.chunk, Opcode::Nil);
    op1(&mut fun.chunk, Opcode::Call, 1);
    finish(&mut fun.chunk);
    let error = drive(&mut vm, fun).unwrap_err();
    assert!(matches!(error, RuntimeError::InvalidArgumentsCount { arity: 0, argc: 1 }));

    let mut vm = VirtualMachine::new();
    let mut fun = ObjFun::new(None);
    let c = string(&mut vm, &mut fun.chunk, "C");
    op1(&mut fun.chunk, Opcode::Class, c);
    op(&mut fun.chunk, Opcode::Nil);
    op1(&mut fun.chunk, Opcode::Method, c);
    finish(&mut fun.chunk);
    let error = drive(&mut vm, fun).unwrap_err();
    assert!(matches!(error, RuntimeError::Object(ObjectError::InvalidCast)));
    assert_eq!("Invalid cast.", error.message());
}

#[test]
fn operands_must_be_numbers() {
    let mut vm = VirtualMachine::new();
    let mut fun = ObjFun::new(None);
    op(&mut fun.chunk, Opcode::Nil);
    op(&mut fun.chunk, Opcode::True);
    op(&mut fun.chunk, Opcode::Sub);
    finish(&mut fun.chunk);
    let error = drive(&mut vm, fun).unwrap_err();
    assert!(matches!(error, RuntimeError::Value(ValueError::OperandsMustBeNumbers)));
    assert_eq!("Operands must be numbers.", error.message());

    let mut vm = VirtualMachine::new();
    let mut fun = ObjFun::new(None);
    op(&mut fun.chunk, Opcode::Nil);
    op(&mut fun.chunk, Opcode::Neg);
    finish(&mut fun.chunk);
    let error = drive(&mut vm, fun).unwrap_err();
    assert!(matches!(error, RuntimeError::Value(ValueError::OperandMustBeNumber)));
    assert_eq!("Operand must be a number.", error.message());
}

#[test]
fn malformed_bytecode_is_refused() {
    let mut vm = VirtualMachine::new();
    let mut fun = ObjFun::new(None);
    fun.chunk.write(200, 1);
    let error = drive(&mut vm, fun).unwrap_err();
    assert!(matches!(error, RuntimeError::InvalidOpcode(200)));
    assert_eq!(
        "No discriminant in enum `Opcode` matches the value `200`",
        error.message()
    );

    let mut vm = VirtualMachine::new();
    let mut fun = ObjFun::new(None);
    op(&mut fun.chunk, Opcode::Nil);
    let error = drive(&mut vm, fun).unwrap_err();
    assert!(matches!(error, RuntimeError::MalformedChunk));
    assert_eq!("Malformed bytecode.", error.message());

    let mut vm = VirtualMachine::new();
    let mut fun = ObjFun::new(None);
    op1(&mut fun.chunk, Opcode::Const, 3);
    let error = drive(&mut vm, fun).unwrap_err();
    assert!(matches!(error, RuntimeError::MalformedChunk));

    let mut vm = VirtualMachine::new();
    let mut fun = ObjFun::new(None);
    op(&mut fun.chunk, Opcode::Pop);
    op(&mut fun.chunk, Opcode::Pop);
    let error = drive(&mut vm, fun).unwrap_err();
    assert!(matches!(error, RuntimeError::StackUnderflow));
    assert_eq!("Stack underflow.", error.message());

    let mut vm = VirtualMachine::new();
    let mut fun = ObjFun::new(None);
    fun.chunk.add_constant(Value::Object(12345)).unwrap();
    let error = drive(&mut vm, fun).unwrap_err();
    assert!(matches!(error, RuntimeError::Object(ObjectError::InvalidCast)));

    let mut vm = VirtualMachine::new();
    let mut fun = ObjFun::new(None);
    fun.chunk.add_constant(Value::Object(12345)).unwrap();
    assert!(!vm.accepts(&fun));
    assert!(vm.define_function(fun).is_err());
}

#[test]
fn the_clock_is_a_native_function() {
    let mut vm = VirtualMachine::new();
    let mut fun = ObjFun::new(None);
    let clock = string(&mut vm, &mut fun.chunk, "clock");
    let zero = constant(&mut fun.chunk, number(0.0));
    op1(&mut fun.chunk, Opcode::GetGlobal, clock);
    op(&mut fun.chunk, Opcode::Print);
    op1(&mut fun.chunk, Opcode::GetGlobal, clock);
    op1(&mut fun.chunk, Opcode::Call, 0);
    op1(&mut fun.chunk, Opcode::Const, zero);
    op(&mut fun.chunk, Opcode::GT);
    op(&mut fun.chunk, Opcode::Print);
    op1(&mut fun.chunk, Opcode::GetGlobal, clock);
    op(&mut fun.chunk, Opcode::Nil);
    op1(&mut fun.chunk, Opcode::Call, 1);
    finish(&mut fun.chunk);
    let mut printed = Vec::new();
    let mut signal = vm.interpret(fun, STEPS);
    let error = loop {
        signal = match signal {
            Ok(Signal::Print(value)) => {
                printed.push(show(vm.display(value)));
                vm.run(STEPS)
            }
            Ok(Signal::Continue) => vm.run(STEPS),
            Ok(other) => panic!("unexpected signal {other:?}"),
            Err(error) => break error,
        };
    };
    assert_eq!(vec!["<native fn>", "true"], printed);
    assert!(matches!(error, RuntimeError::InvalidArgumentsCount { arity: 0, argc: 1 }));
    assert!(matches!(clock_native(&[]), Value::Number(_)));
    assert_eq!(number(1.5), clock_value(Some(1.5f64.to_bits())));
    assert_eq!(Value::Nil, clock_value(None));
    match clock_native(&[Value::Nil]) {
        Value::Number(bits) => assert!(f64::from_bits(bits) > 1.0e9),
        other => panic!("the clock gave {other:?}"),
    }
}

#[test]
fn running_stops_when_the_steps_are_used_up() {
    let mut vm = VirtualMachine::new();
    let mut fun = ObjFun::new(None);
    op(&mut fun.chunk, Opcode::Nil);
    op(&mut fun.chunk, Opcode::Pop);
    op2(&mut fun.chunk, Opcode::Loop, 0, 5);
    assert!(matches!(vm.interpret(fun, 10), Ok(Signal::Continue)));
    assert!(matches!(vm.run(1), Ok(Signal::Continue)));
    assert!(matches!(vm.run(0), Ok(Signal::Continue)));
    assert_eq!(1, vm.frames_len());
    assert!(matches!(vm.step(), Ok(Signal::Continue)));
}

#[test]
fn collections_free_what_the_program_dropped() {
    let mut vm = VirtualMachine::new();
    let mut fun = ObjFun::new(None);
    let c = string(&mut vm, &mut fun.chunk, "C");
    let i = string(&mut vm, &mut fun.chunk, "i");
    let zero = constant(&mut fun.chunk, number(0.0));
    let one = constant(&mut fun.chunk, number(1.0));
    let rounds = constant(&mut fun.chunk, number(60000.0));
    let a = string(&mut vm, &mut fun.chunk, "a");
    let b = string(&mut vm, &mut fun.chunk, "b");
    op1(&mut fun.chunk, Opcode::Class, c);
    op1(&mut fun.chunk, Opcode::DefineGlobal, c);
    op1(&mut fun.chunk, Opcode::Const, zero);
    op1(&mut fun.chunk, Opcode::DefineGlobal, i);
    // The loop starts at offset 8.
    op1(&mut fun.chunk, Opcode::GetGlobal, i);
    op1(&mut fun.chunk, Opcode::Const, rounds);
    op(&mut fun.chunk, Opcode::LT);
    op2(&mut fun.chunk, Opcode::JumpIfFalse, 0, 17);
    op(&mut fun.chunk, Opcode::Pop);
    op1(&mut fun.chunk, Opcode::GetGlobal, c);
    op1(&mut fun.chunk, Opcode::Call, 0);
    op(&mut fun.chunk, Opcode::Pop);
    op1(&mut fun.chunk, Opcode::GetGlobal, i);
    op1(&mut fun.chunk, Opcode::Const, one);
    op(&mut fun.chunk, Opcode::Add);
    op1(&mut fun.chunk, Opcode::SetGlobal, i);
    op(&mut fun.chunk, Opcode::Pop);
    op2(&mut fun.chunk, Opcode::Loop, 0, 25);
    op(&mut fun.chunk, Opcode::Pop);
    op1(&mut fun.chunk, Opcode::Const, a);
    op1(&mut fun.chunk, Opcode::Const, b);
    op(&mut fun.chunk, Opcode::Add);
    op(&mut fun.chunk, Opcode::Print);
    op1(&mut fun.chunk, Opcode::GetGlobal, i);
    op(&mut fun.chunk, Opcode::Print);
    finish(&mut fun.chunk);
    let baseline = vm.bytes_allocated();
    assert_eq!(vec!["ab", "60000"], drive(&mut vm, fun).unwrap());
    assert_ne!(INITIAL_GC_THRESHOLD, vm.next_gc());
    assert!(vm.bytes_allocated() < INITIAL_GC_THRESHOLD);
    assert!(vm.bytes_allocated() >= baseline);
    assert_eq!(0, vm.stack_len());
    assert_eq!(0, vm.frames_len());
}

#[test]
fn jump_offsets_are_big_endian() {
    let mut vm = VirtualMachine::new();
    let mut fun = ObjFun::new(None);
    let far = string(&mut vm, &mut fun.chunk, "far");
    op2(&mut fun.chunk, Opcode::Jump, 1, 4);
    for _ in 0..260 {
        op(&mut fun.chunk, Opcode::Print);
    }
    op1(&mut fun.chunk, Opcode::Const, far);
    op(&mut fun.chunk, Opcode::Print);
    op(&mut fun.chunk, Opcode::True);
    op2(&mut fun.chunk, Opcode::JumpIfFalse, 1, 4);
    op(&mut fun.chunk, Opcode::Print);
    finish(&mut fun.chunk);
    assert_eq!(vec!["far", "true"], drive(&mut vm, fun).unwrap());

    let mut vm = VirtualMachine::new();
    let mut fun = ObjFun::new(None);
    op2(&mut fun.chunk, Opcode::Jump, 4, 1);
    finish(&mut fun.chunk);
    let error = drive(&mut vm, fun).unwrap_err();
    assert!(matches!(error, RuntimeError::MalformedChunk));

    let mut vm = VirtualMachine::new();
    let mut fun = ObjFun::new(None);
    op2(&mut fun.chunk, Opcode::Loop, 0, 4);
    finish(&mut fun.chunk);
    let error = drive(&mut vm, fun).unwrap_err();
    assert!(matches!(error, RuntimeError::MalformedChunk));
}

#[test]
fn arithmetic_is_handed_to_the_host() {
    let mut vm = VirtualMachine::new();
    let mut fun = ObjFun::new(None);
    let six = constant(&mut fun.chunk, number(6.0));
    let four = constant(&mut fun.chunk, number(4.0));
    op1(&mut fun.chunk, Opcode::Const, six);
    op1(&mut fun.chunk, Opcode::Const, four);
    op(&mut fun.chunk, Opcode::Sub);
    op(&mut fun.chunk, Opcode::Print);
    finish(&mut fun.chunk);
    let signal = vm.interpret(fun, STEPS).unwrap();
    assert_eq!(Signal::Arithmetic(Opcode::Sub, 6.0f64.to_bits(), 4.0f64.to_bits()), signal);
    assert_eq!(1, vm.stack_len());
    let signal = vm.resume_with(2.0f64.to_bits(), STEPS).unwrap();
    assert_eq!(Signal::Print(number(2.0)), signal);
    assert_eq!(1, vm.stack_len());
    assert_eq!(Signal::Done, vm.run(STEPS).unwrap());
    assert_eq!(0, vm.stack_len());
    assert_eq!(0, vm.frames_len());
}

#[test]
fn a_refused_call_starts_no_frame() {
    let mut vm = VirtualMachine::new();
    let mut f = named(&mut vm, "f", 2, 0);
    finish(&mut f.chunk);
    let mut fun = ObjFun::new(None);
    let f = function(&mut vm, &mut fun.chunk, f);
    op1(&mut fun.chunk, Opcode::Closure, f);
    op(&mut fun.chunk, Opcode::Nil);
    op1(&mut fun.chunk, Opcode::Call, 1);
    finish(&mut fun.chunk);
    let error = drive(&mut vm, fun).unwrap_err();
    assert!(matches!(error, RuntimeError::InvalidArgumentsCount { arity: 2, argc: 1 }));
    assert_eq!(1, vm.frames_len());
    assert_eq!(3, vm.stack_len());
}

#[test]
fn a_refused_native_call_leaves_the_stack() {
    let mut vm = VirtualMachine::new();
    let mut fun = ObjFun::new(None);
    let clock = string(&mut vm, &mut fun.chunk, "clock");
    op1(&mut fun.chunk, Opcode::GetGlobal, clock);
    op(&mut fun.chunk, Opcode::Nil);
    op1(&mut fun.chunk, Opcode::Call, 1);
    finish(&mut fun.chunk);
    let error = drive(&mut vm, fun).unwrap_err();
    assert!(matches!(error, RuntimeError::InvalidArgumentsCount { arity: 0, argc: 1 }));
    assert_eq!(1, vm.frames_len());
    assert_eq!(3, vm.stack_len());
}

#[test]
fn a_refused_addition_allocates_nothing() {
    let mut vm = VirtualMachine::new();
    let mut fun = ObjFun::new(None);
    let a = string(&mut vm, &mut fun.chunk, "a");
    let one = constant(&mut fun.chunk, number(1.0));
    op1(&mut fun.chunk, Opcode::Const, a);
    op1(&mut fun.chunk, Opcode::Const, one);
    op(&mut fun.chunk, Opcode::Add);
    finish(&mut fun.chunk);
    // The clock, the string, the function of the program and its closure.
    let expected = 40 + 24 + 88 + 32;
    assert!(matches!(vm.interpret(fun, 2), Ok(Signal::Continue)));
    assert_eq!(expected, vm.bytes_allocated());
    assert!(vm.step().is_err());
    assert_eq!(expected, vm.bytes_allocated());
    assert_eq!(3, vm.stack_len());
}

#[test]
fn a_refused_superclass_changes_nothing() {
    let mut vm = VirtualMachine::new();
    let mut fun = ObjFun::new(None);
    let c = string(&mut vm, &mut fun.chunk, "C");
    op(&mut fun.chunk, Opcode::Nil);
    op1(&mut fun.chunk, Opcode::Class, c);
    op(&mut fun.chunk, Opcode::Inherit);
    finish(&mut fun.chunk);
    assert!(matches!(vm.interpret(fun, 2), Ok(Signal::Continue)));
    let bytes = vm.bytes_allocated();
    assert!(matches!(vm.step(), Err(RuntimeError::InvalidSuperclass)));
    assert_eq!(bytes, vm.bytes_allocated());
    assert_eq!(3, vm.stack_len());
    assert_eq!(1, vm.frames_len());
}

#[test]
fn a_called_class_gives_way_to_its_instance_before_the_arguments_are_counted() {
    let mut vm = VirtualMachine::new();
    let mut fun = ObjFun::new(None);
    let c = string(&mut vm, &mut fun.chunk, "C");
    op1(&mut fun.chunk, Opcode::Class, c);
    op(&mut fun.chunk, Opcode::Nil);
    op1(&mut fun.chunk, Opcode::Call, 1);
    finish(&mut fun.chunk);
    assert!(matches!(vm.interpret(fun, 2), Ok(Signal::Continue)));
    // The clock, the name, the function of the program, its closure and the class.
    assert_eq!(40 + 24 + 88 + 32 + 40, vm.bytes_allocated());
    let error = vm.step().unwrap_err();
    assert!(matches!(error, RuntimeError::InvalidArgumentsCount { arity: 0, argc: 1 }));
    // The instance has been allocated.
    assert_eq!(40 + 24 + 88 + 32 + 40 + 40, vm.bytes_allocated());
    assert_eq!(3, vm.stack_len());
    assert_eq!(1, vm.frames_len());
}

#[test]
fn errors_leave_popped_what_was_popped() {
    let cases: [(Opcode, usize); 9] = [
        (Opcode::LT, 2),
        (Opcode::GE, 2),
        (Opcode::Sub, 2),
        (Opcode::Add, 3),
        (Opcode::Neg, 3),
        (Opcode::GetProperty, 3),
        (Opcode::SetProperty, 2),
        (Opcode::GetSuper, 2),
        (Opcode::Method, 2),
    ];
    for (opcode, left) in cases {
        let mut vm = VirtualMachine::new();
        let mut fun = ObjFun::new(None);
        let x = string(&mut vm, &mut fun.chunk, "x");
        op(&mut fun.chunk, Opcode::Nil);
        op(&mut fun.chunk, Opcode::Nil);
        match opcode {
            Opcode::GetProperty | Opcode::SetProperty | Opcode::GetSuper | Opcode::Method => {
                op1(&mut fun.chunk, opcode, x)
            }
            _ => op(&mut fun.chunk, opcode),
        }
        finish(&mut fun.chunk);
        assert!(matches!(vm.interpret(fun, 2), Ok(Signal::Continue)));
        assert_eq!(3, vm.stack_len());
        assert!(vm.step().is_err(), "{opcode:?}");
        assert_eq!(left, vm.stack_len(), "{opcode:?}");
        assert_eq!(1, vm.frames_len());
    }
    for (opcode, left) in [(Opcode::Invoke, 3), (Opcode::SuperInvoke, 2)] {
        let mut vm = VirtualMachine::new();
        let mut fun = ObjFun::new(None);
        let x = string(&mut vm, &mut fun.chunk, "x");
        op(&mut fun.chunk, Opcode::Nil);
        op(&mut fun.chunk, Opcode::Nil);
        op2(&mut fun.chunk, opcode, x, 0);
        finish(&mut fun.chunk);
        assert!(matches!(vm.interpret(fun, 2), Ok(Signal::Continue)));
        assert!(vm.step().is_err(), "{opcode:?}");
        assert_eq!(left, vm.stack_len(), "{opcode:?}");
    }
}

#[test]
fn a_collection_frees_what_no_root_leads_to() {
    let mut vm = VirtualMachine::new();
    let baseline = vm.bytes_allocated();
    let first = vm.intern("garbage".to_string());
    assert_eq!(baseline + 24, vm.bytes_allocated());
    assert_eq!(first, vm.intern("garbage".to_string()));
    assert_eq!(baseline + 24, vm.bytes_allocated());
    assert_eq!(first, Value::Object(vm.lookup("garbage").unwrap()));
    vm.mark_sweep();
    // The clock and its name are global: they stay. The string goes.
    assert_eq!(baseline, vm.bytes_allocated());
    assert_eq!(baseline * 2, vm.next_gc());
    assert!(vm.lookup("clock").is_some());
    // The table of interned strings has forgotten the text: a new object is made.
    assert_eq!(None, vm.lookup("garbage"));
    let _ = vm.intern("garbage".to_string());
    assert!(vm.lookup("garbage").is_some());
    assert_eq!(baseline + 24, vm.bytes_allocated());
    vm.mark_sweep();
    vm.mark_sweep();
    assert_eq!(baseline, vm.bytes_allocated());
    let clock = vm_clock(&mut vm);
    assert_eq!("<native fn>", show(vm.display(clock)));
    // The program has ended: nothing leads to its function and its closure any more.
    assert_eq!(baseline + 88 + 32, vm.bytes_allocated());
    vm.mark_sweep();
    assert_eq!(baseline, vm.bytes_allocated());
}

/// Runs a program that hands out the global `clock`.
fn vm_clock(vm: &mut VirtualMachine) -> Value {
    let mut fun = ObjFun::new(None);
    let clock = string(vm, &mut fun.chunk, "clock");
    op1(&mut fun.chunk, Opcode::GetGlobal, clock);
    op(&mut fun.chunk, Opcode::Print);
    finish(&mut fun.chunk);
    let value = match vm.interpret(fun, STEPS) {
        Ok(Signal::Print(value)) => value,
        other => panic!("unexpected {other:?}"),
    };
    assert!(matches!(vm.run(STEPS), Ok(Signal::Done)));
    value
}

#[test]
fn the_clock_shows_a_finite_number_that_is_not_negative() {
    match clock_native(&[]) {
        Value::Number(bits) => {
            let seconds = f64::from_bits(bits);
            assert!(seconds.is_finite());
            assert!(seconds >= 0.0);
            assert!(bits < 0x7ff0_0000_0000_0000);
        }
        other => panic!("the clock gave {other:?}"),
    }
}
