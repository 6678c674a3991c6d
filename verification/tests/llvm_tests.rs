use cmm::ast::Ast;
use cmm::check::{check_program, has_dead_code};
use cmm::codegen::CodeBuilder;
use cmm::ir::{Arith, BlockKind, Callee, Inst, IrType, Pred, Runtime, Value, ValueKind};
use cmm::Type;
use inkwell::basic_block::BasicBlock;
use inkwell::builder::Builder;
use inkwell::context::Context;
use inkwell::module::{Linkage, Module};
use inkwell::types::{BasicMetadataTypeEnum, BasicType, BasicTypeEnum};
use inkwell::values::{
    BasicMetadataValueEnum, BasicValue, BasicValueEnum, FunctionValue, IntValue, PointerValue,
};
use inkwell::{AddressSpace, IntPredicate};

/// A module of LLVM that holds what a listing describes.
struct Emitter<'ctx> {
    context: &'ctx Context,
    module: Module<'ctx>,
    builder: Builder<'ctx>,
    /// The value of each register, by its number.
    registers: Vec<BasicValueEnum<'ctx>>,
    /// Each basic block, by its number.
    blocks: Vec<BasicBlock<'ctx>>,
    /// The address of each global variable, by its number.
    globals: Vec<PointerValue<'ctx>>,
    /// Each function of the program, by its number.
    functions: Vec<FunctionValue<'ctx>>,
    input: Option<FunctionValue<'ctx>>,
    output: Option<FunctionValue<'ctx>>,
    /// The parameters announced for the next function.
    params: Vec<(Type, String)>,
    /// The arguments passed to the next call.
    args: Vec<BasicMetadataValueEnum<'ctx>>,
}

impl<'ctx> Emitter<'ctx> {
    /// Builds the module of a lowered program.
    fn new(context: &'ctx Context, code: &CodeBuilder) -> Self {
        let mut emitter = Self {
            context,
            module: context.create_module(code.name()),
            builder: context.create_builder(),
            registers: Vec::new(),
            blocks: Vec::new(),
            globals: Vec::new(),
            functions: Vec::new(),
            input: None,
            output: None,
            params: Vec::new(),
            args: Vec::new(),
        };
        for inst in code.listing() {
            emitter.take(inst);
        }
        emitter
    }

    /// The module as LLVM-IR text.
    fn text(&self) -> String {
        self.module.print_to_string().to_string()
    }

    /// Whether LLVM finds the module valid.
    fn is_valid(&self) -> bool {
        self.module.verify().is_ok()
    }

    fn basic_type(&self, ty: IrType) -> BasicTypeEnum<'ctx> {
        let int = self.context.i32_type();
        let space = AddressSpace::default();
        match ty {
            IrType::I1 => self.context.bool_type().as_basic_type_enum(),
            IrType::I32 => int.as_basic_type_enum(),
            IrType::Array(n) => int.array_type(n as u32).as_basic_type_enum(),
            IrType::Ptr => int.ptr_type(space).as_basic_type_enum(),
            IrType::PtrPtr => int.ptr_type(space).ptr_type(space).as_basic_type_enum(),
            IrType::PtrArray(n) => int.array_type(n as u32).ptr_type(space).as_basic_type_enum(),
        }
    }

    fn current_function(&self) -> FunctionValue<'ctx> {
        *self.functions.last().expect("a function is being defined")
    }

    fn value(&self, v: &Value) -> BasicValueEnum<'ctx> {
        match v.kind {
            ValueKind::Const(c) => {
                self.context.i32_type().const_int(c as u64, true).as_basic_value_enum()
            }
            ValueKind::Zero => self.basic_type(v.ty).const_zero(),
            ValueKind::Reg(r) => self.registers[r],
            ValueKind::Global(g) => self.globals[g].as_basic_value_enum(),
            ValueKind::Param(i) => self.current_function().get_nth_param(i as u32).unwrap(),
        }
    }

    fn integer(&self, v: &Value) -> IntValue<'ctx> {
        self.value(v).into_int_value()
    }

    fn pointer(&self, v: &Value) -> PointerValue<'ctx> {
        self.value(v).into_pointer_value()
    }

    fn define<V: BasicValue<'ctx>>(&mut self, dst: usize, value: V) {
        assert_eq!(dst, self.registers.len());
        self.registers.push(value.as_basic_value_enum());
    }

    /// Takes one step of a listing.
    fn take(&mut self, inst: &Inst) {
        let int = self.context.i32_type();
        match inst {
            Inst::Extern { routine: Runtime::Input } => {
                let ty = int.fn_type(&[], false);
                self.input = Some(self.module.add_function("input", ty, Some(Linkage::External)));
            }
            Inst::Extern { routine: Runtime::Output } => {
                let ty = self.context.void_type().fn_type(&[int.into()], false);
                self.output =
                    Some(self.module.add_function("output", ty, Some(Linkage::External)));
            }
            Inst::Global { name, ty } => {
                let basic = self.basic_type(ty.to_llvm_basic_type());
                let v = self.module.add_global(basic, None, name);
                v.set_initializer(&basic.const_zero());
                self.globals.push(v.as_pointer_value());
            }
            Inst::Param { ty, name } => self.params.push((*ty, name.clone())),
            Inst::Function { name, ret, params } => {
                assert_eq!(*params, self.params.len());
                let param_types: Vec<BasicMetadataTypeEnum<'ctx>> = self
                    .params
                    .iter()
                    .map(|(ty, _)| self.basic_type(ty.to_llvm_basic_metadata_type()).into())
                    .collect();
                let ty = match ret {
                    Type::Void => self.context.void_type().fn_type(&param_types[..], false),
                    other => self
                        .basic_type(other.to_llvm_basic_type())
                        .fn_type(&param_types[..], false),
                };
                let function = self.module.add_function(name, ty, None);
                for (index, arg) in function.get_param_iter().enumerate() {
                    arg.set_name(&self.params[index].1);
                }
                self.functions.push(function);
                self.params.clear();
            }
            Inst::Block { kind, anchor } => {
                let block = match kind {
                    BlockKind::Entry => {
                        self.context.append_basic_block(self.current_function(), "entry")
                    }
                    BlockKind::Then => {
                        self.context.insert_basic_block_after(self.blocks[*anchor], "then_block")
                    }
                    BlockKind::IfDest => self
                        .context
                        .insert_basic_block_after(self.blocks[*anchor], "if_dest_block"),
                    BlockKind::Else => {
                        self.context.prepend_basic_block(self.blocks[*anchor], "else_block")
                    }
                    BlockKind::LoopHead => {
                        self.context.insert_basic_block_after(self.blocks[*anchor], "loop_head")
                    }
                    BlockKind::LoopBody => {
                        self.context.insert_basic_block_after(self.blocks[*anchor], "loop_body")
                    }
                    BlockKind::LoopDest => self
                        .context
                        .insert_basic_block_after(self.blocks[*anchor], "loop_dest_block"),
                };
                self.blocks.push(block);
            }
            Inst::Enter { block } => self.builder.position_at_end(self.blocks[*block]),
            Inst::Alloca { dst, ty, name } => {
                let name = name.as_deref().unwrap_or("");
                let v = self.builder.build_alloca(self.basic_type(*ty), name);
                self.define(*dst, v);
            }
            Inst::Store { ptr, value } => {
                self.builder.build_store(self.pointer(ptr), self.value(value));
            }
            Inst::Load { dst, ptr } => {
                let v = self.builder.build_load(self.pointer(ptr), "");
                self.define(*dst, v);
            }
            Inst::ArrayStart { .. } | Inst::ElementPtr { .. } => {
                panic!("the address of an element is not computed in these tests");
            }
            Inst::PtrToInt { dst, value } => {
                let v = self.builder.build_ptr_to_int(self.pointer(value), int, "");
                self.define(*dst, v);
            }
            Inst::Binary { dst, op, lhs, rhs } => {
                let (lhs, rhs) = (self.integer(lhs), self.integer(rhs));
                let v = match op {
                    Arith::Add => self.builder.build_int_add(lhs, rhs, ""),
                    Arith::Sub => self.builder.build_int_sub(lhs, rhs, ""),
                    Arith::Mul => self.builder.build_int_mul(lhs, rhs, ""),
                    Arith::SDiv => self.builder.build_int_signed_div(lhs, rhs, ""),
                    Arith::SRem => self.builder.build_int_signed_rem(lhs, rhs, ""),
                    Arith::And => self.builder.build_and(lhs, rhs, ""),
                    Arith::Or => self.builder.build_or(lhs, rhs, ""),
                    Arith::Xor => self.builder.build_xor(lhs, rhs, ""),
                    Arith::Shl => self.builder.build_left_shift(lhs, rhs, ""),
                    Arith::AShr => self.builder.build_right_shift(lhs, rhs, true, ""),
                };
                self.define(*dst, v);
            }
            Inst::Compare { dst, pred, lhs, rhs } => {
                let pred = match pred {
                    Pred::Sge => IntPredicate::SGE,
                    Pred::Sle => IntPredicate::SLE,
                    Pred::Sgt => IntPredicate::SGT,
                    Pred::Slt => IntPredicate::SLT,
                    Pred::Eq => IntPredicate::EQ,
                    Pred::Ne => IntPredicate::NE,
                };
                let v = self.builder.build_int_compare(pred, self.integer(lhs), self.integer(rhs), "");
                self.define(*dst, v);
            }
            Inst::Widen { dst, value } => {
                let v = self.builder.build_int_z_extend(self.integer(value), int, "");
                self.define(*dst, v);
            }
            Inst::Truncate { dst, value } => {
                let v = self.builder.build_int_truncate(
                    self.integer(value),
                    self.context.bool_type(),
                    "condition",
                );
                self.define(*dst, v);
            }
            Inst::Arg { value } => {
                let v = self.value(value);
                self.args.push(v.into());
            }
            Inst::Call { dst, callee, args, name } => {
                assert_eq!(*args, self.args.len());
                let function = match callee {
                    Callee::Runtime(Runtime::Input) => self.input.expect("input is declared"),
                    Callee::Runtime(Runtime::Output) => self.output.expect("output is declared"),
                    Callee::Defined(index) => self.functions[*index],
                };
                let call = self.builder.build_call(function, &self.args[..], name);
                self.args.clear();
                if let Some(dst) = dst {
                    let v = call.try_as_basic_value().left().expect("the callee returns a value");
                    self.define(*dst, v);
                }
            }
            Inst::Return { value } => {
                match value {
                    Some(v) => {
                        let v = self.value(v);
                        self.builder.build_return(Some(&v))
                    }
                    None => self.builder.build_return(None),
                };
            }
            Inst::Branch { target } => {
                self.builder.build_unconditional_branch(self.blocks[*target]);
            }
            Inst::CondBranch { cond, then_block, else_block } => {
                self.builder.build_conditional_branch(
                    self.integer(cond),
                    self.blocks[*then_block],
                    self.blocks[*else_block],
                );
            }
        }
    }
}

fn lowered(source: &str) -> CodeBuilder {
    let ast = Ast::parse(source).expect("the text is a program");
    assert!(check_program(&ast));
    CodeBuilder::new("test", &ast).expect("the program is lowered")
}

fn text_of(source: &str) -> String {
    let context = Context::create();
    let text = Emitter::new(&context, &lowered(source)).text();
    text
}

fn valid(source: &str) -> bool {
    let context = Context::create();
    let valid = Emitter::new(&context, &lowered(source)).is_valid();
    valid
}

const PROGRAM: &str = "int g;\nint gcd(int a, int b){ while (b != 0) { int t; t = b; b = a % b; a = t; } return a; }\nvoid show(int n){ int i; i = 0; while (i < n) { output(i * i); i = i + 1; } }\nint main(void){ show(8); if (input() > 4 && g == 0) { output(gcd(input(), 12)); } else output(0); return 0; }\n";

#[test]
fn llvm_text_of_the_smallest_program() {
    let text = text_of("int main(void) { return 0; }");
    assert!(text.contains("declare i32 @input()"), "{}", text);
    assert!(text.contains("declare void @output(i32)"), "{}", text);
    assert!(text.contains("define i32 @main() {\nentry:\n  ret i32 0\n}"), "{}", text);
}

#[test]
fn llvm_text_of_a_global_that_is_stored_to_and_read() {
    let text = text_of("int g; int main(void){ g = 40 + 2; return g; }");
    assert!(text.contains("@g = global i32 0"), "{}", text);
    assert!(text.contains("store i32 42, i32* @g"), "{}", text);
    assert!(text.contains("load i32, i32* @g"), "{}", text);
    assert!(text.contains("ret i32 %"), "{}", text);
}

#[test]
fn llvm_accepts_what_is_lowered() {
    for source in [
        PROGRAM,
        "int main(void) { return 0; }",
        "int f(int n){ if (n<2) return n; return f(n-1)+f(n-2); }\nint main(void){ return f(10); }",
        "int f(void){}",
        "void f(int *p, int *q){ p = q; }",
        "int f(int *p){ return p + 1 < 2 || input() >> 3; }",
        "int f(int a, int *b, int n){ return n; }",
        "void f(void){ while (1) { if (input()) return; else output(1); } }",
        "int x; int main(void){ int x; x = 1; { int x; x = 2; } x = input(); return x; }",
    ] {
        let ast = Ast::parse(source).unwrap();
        assert!(!has_dead_code(&ast), "{}", source);
        assert!(valid(source), "{}\n{}", source, text_of(source));
    }
}

#[test]
fn llvm_refuses_a_terminator_inside_a_block() {
    assert!(!valid("int main(void){ return 0; output(1); }"));
}

#[test]
fn llvm_text_is_the_same_each_time() {
    assert_eq!(text_of(PROGRAM), text_of(PROGRAM));
}

#[test]
fn llvm_text_places_the_blocks_of_a_selection() {
    let text = text_of("int main(void){ if (input()) output(1); else output(2); return 3; }");
    let then_at = text.find("then_block:").expect("a then block");
    let else_at = text.find("else_block:").expect("an else block");
    let dest_at = text.find("if_dest_block:").expect("a block behind the selection");
    assert!(then_at < else_at && else_at < dest_at, "{}", text);
    assert!(text.contains("%condition = trunc i32"), "{}", text);
    assert!(text.contains("br i1 %condition, label %then_block, label %else_block"), "{}", text);
}

#[test]
fn llvm_text_places_the_blocks_of_a_loop() {
    let text = text_of("int main(void){ while (input()) output(1); return 0; }");
    let head_at = text.find("loop_head:").expect("a block for the test");
    let body_at = text.find("loop_body:").expect("a block for the body");
    let dest_at = text.find("loop_dest_block:").expect("a block behind the loop");
    assert!(head_at < body_at && body_at < dest_at, "{}", text);
    assert!(text.contains("br i1 %condition, label %loop_body, label %loop_dest_block"), "{}", text);
}
