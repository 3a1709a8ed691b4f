use hcompiler::asmgen::ag::{AsmGen, AsmInst, Context};
use hcompiler::asmgen::codegen_util::{align, is_imm_12};
use hcompiler::asmgen::register::{FReg, Reg};
use hcompiler::ir::ir_printer::{op_id_name, print_constant, print_module, print_type};
use hcompiler::ir::module::Module;
use hcompiler::ir::user::OpID;
use hcompiler::ir::value::{BasicBlockPtr, ConstantPtr, FunctionPtr, GVPtr, InstPtr, ValuePtr};

/// `int main() { return 1 + 2; }` built by hand.
fn main_returning_sum() -> Module {
    let mut m = Module::new();
    let i32t = m.get_int_ty();
    let fty = m.get_func_ty(i32t, vec![]);
    let f = FunctionPtr::create(fty, "main".to_string(), &mut m);
    let bb = BasicBlockPtr::create(&mut m, "entry".to_string(), f);
    let c1 = ConstantPtr::new_int(&mut m, i32t, String::new(), 1);
    let c2 = ConstantPtr::new_int(&mut m, i32t, String::new(), 2);
    let sum = InstPtr::ibinary_inst(&mut m, OpID::Add, c1.to_val(), c2.to_val(), bb);
    InstPtr::ret_inst(&mut m, sum.to_val(), bb);
    m
}

#[test]
fn register_abi_names() {
    assert_eq!(Reg::zero().print(), "zero");
    assert_eq!(Reg::ra().print(), "ra");
    assert_eq!(Reg::sp().print(), "sp");
    assert_eq!(Reg::fp().print(), "s0");
    assert_eq!(Reg::a(0).print(), "a0");
    assert_eq!(Reg::a(7).print(), "a7");
    assert_eq!(Reg::t(0).print(), "t0");
    assert_eq!(Reg::t(2).print(), "t2");
    assert_eq!(Reg::t(3).print(), "t3");
    assert_eq!(Reg::t(6).print(), "t6");
    assert_eq!(Reg::s(1).print(), "s1");
    assert_eq!(Reg::s(2).print(), "s2");
    assert_eq!(Reg::s(11).print(), "s11");
    assert_eq!(Reg::new(31).print(), "t6");
    assert_eq!(FReg::fa(1).print(), "fa1");
    assert_eq!(FReg::ft(0).print(), "ft0");
    assert_eq!(FReg::ft(8).print(), "ft8");
    assert_eq!(FReg::fs(2).print(), "fs2");
    assert_eq!(FReg::new(31).print(), "ft11");
}

#[test]
fn align_rounds_up_to_power_of_two() {
    assert_eq!(align(17, 16), 32);
    assert_eq!(align(16, 16), 16);
    assert_eq!(align(0, 8), 0);
    assert_eq!(align(5, 4), 8);
    assert_eq!(align(20, 1), 20);
}

#[test]
fn imm12_range() {
    assert!(is_imm_12(2047));
    assert!(!is_imm_12(2048));
    assert!(is_imm_12(-2048));
    assert!(!is_imm_12(-2049));
    assert!(is_imm_12(0));
}

#[test]
fn asm_line_format() {
    assert_eq!(AsmInst::Instruction("addi a0, zero, 1".to_string()).format(), "\taddi a0, zero, 1\n");
    assert_eq!(AsmInst::Attribute(".text".to_string()).format(), "\t.text\n");
    assert_eq!(AsmInst::Label("main".to_string()).format(), "main:\n");
    assert_eq!(AsmInst::Comment("add".to_string()).format(), "# add\n");
}

#[test]
fn append_inst_parts_joins_with_commas() {
    let mut g = AsmGen::new(Module::new());
    g.append_inst_parts("addi", vec!["t0".to_string(), "s0".to_string(), "-8".to_string()]);
    g.append_inst_parts("ret", vec![]);
    g.append_inst_with_type("ignored".to_string(), AsmInst::Label("L".to_string()));
    assert_eq!(g.print(), "\taddi t0, s0, -8\n\tret \nL:\n");
}

#[test]
fn load_large_constants() {
    let mut g = AsmGen::new(Module::new());
    g.load_large_int32(0x12345, &Reg::t(0));
    g.load_large_int32(4095, &Reg::t(1));
    g.load_large_int32(4096, &Reg::t(2));
    assert_eq!(
        g.print(),
        "\tlui t0, 18\n\taddiw t0, t0, 837\n\tlui t1, 1\n\taddiw t1, t1, -1\n\tlui t2, 1\n"
    );
}

#[test]
fn context_clear_resets() {
    let mut c = Context::new();
    c.frame_size = 48;
    c.fcmp_cnt = 3;
    c.func = Some(1);
    c.offset_map.insert(1, -20);
    c.clear();
    assert_eq!(c.frame_size, 0);
    assert_eq!(c.fcmp_cnt, 0);
    assert!(c.func.is_none());
    assert!(c.offset_map.is_empty());
}

#[test]
fn op_names() {
    assert_eq!(op_id_name(OpID::Add), "add");
    assert_eq!(op_id_name(OpID::SDiv), "sdiv");
    assert_eq!(op_id_name(OpID::Ge), "sge");
    assert_eq!(op_id_name(OpID::FNe), "une");
    assert_eq!(op_id_name(OpID::GetElementPtr), "getelementptr");
}

#[test]
fn type_printing_and_interning() {
    let mut m = Module::new();
    let i32t = m.get_int_ty();
    let f32t = m.get_float_ty();
    let arr = m.get_arr_ty(i32t, 3);
    let arr2 = m.get_arr_ty(arr, 2);
    let p = m.get_ptr_ty(arr);
    let p_again = m.get_ptr_ty(arr);
    assert_eq!(p, p_again);
    let fty = m.get_func_ty(i32t, vec![i32t, f32t]);
    assert_eq!(print_type(&m, i32t), "i32");
    assert_eq!(print_type(&m, f32t), "float");
    assert_eq!(print_type(&m, m.get_bool_ty()), "i1");
    assert_eq!(print_type(&m, m.get_void_ty()), "void");
    assert_eq!(print_type(&m, arr), "[3 x i32]");
    assert_eq!(print_type(&m, arr2), "[2 x [3 x i32]]");
    assert_eq!(print_type(&m, p), "[3 x i32]*");
    assert_eq!(print_type(&m, fty), "i32 (i32, float)");
}

#[test]
fn constant_printing() {
    let mut m = Module::new();
    let i32t = m.get_int_ty();
    let f32t = m.get_float_ty();
    let bt = m.get_bool_ty();
    let five = ConstantPtr::new_int(&mut m, i32t, String::new(), 5);
    let neg = ConstantPtr::new_int(&mut m, i32t, String::new(), -7);
    let f = ConstantPtr::new_zero(&mut m, bt, String::new());
    let no = ConstantPtr::new_int(&mut m, bt, String::new(), 0);
    let yes = ConstantPtr::new_int(&mut m, bt, String::new(), 1);
    assert_eq!(print_constant(&m, &five), "5");
    assert_eq!(print_constant(&m, &neg), "-7");
    assert_eq!(print_constant(&m, &f), "zeroinitializer");
    assert_eq!(print_constant(&m, &no), "false");
    assert_eq!(print_constant(&m, &yes), "true");
    let arr = m.get_arr_ty(i32t, 2);
    let a = ConstantPtr::new_arr(&mut m, arr, String::new(), vec![five, neg]);
    assert_eq!(print_constant(&m, &a), "[2 x i32] [i32 5, i32 -7]");
    for bits in [0x3F80_0000u32, 0x3FC0_0000, 0x0000_0001, 0x8000_0000, 0x7F80_0000, 0x7FC0_0000, 0x0040_0000, 0xC2F6_E979] {
        let c = ConstantPtr::new_float(&mut m, f32t, String::new(), bits);
        let expected = format!("0x{:016X}", (f32::from_bits(bits) as f64).to_bits());
        assert_eq!(print_constant(&m, &c), expected);
    }
    let one = ConstantPtr::new_float(&mut m, f32t, String::new(), 0x3F80_0000);
    assert_eq!(print_constant(&m, &one), "0x3FF0000000000000");
}

#[test]
fn module_printing_names_values() {
    let mut m = main_returning_sum();
    let text = print_module(&mut m);
    assert_eq!(text, "define i32 @main() {\nentry:\n  %op5 = add i32 1, 2\n  ret i32 %op5\n}\n\n");
}

#[test]
fn globals_and_declarations_print() {
    let mut m = Module::new();
    let i32t = m.get_int_ty();
    let void = m.get_void_ty();
    let p = m.get_ptr_ty(i32t);
    let c = ConstantPtr::new_int(&mut m, i32t, String::new(), 3);
    let g = GVPtr::new("g".to_string(), &mut m, p, false, Some(c));
    m.add_gv(g.0);
    let h = GVPtr::create("h".to_string(), &mut m, p, true, None);
    m.add_gv(h.0);
    assert!(!g.is_const(&m));
    assert!(h.is_const(&m));
    assert_eq!(g.get_init(&m).0, c.0);
    let fty = m.get_func_ty(void, vec![i32t]);
    let _f = FunctionPtr::create(fty, "output".to_string(), &mut m);
    let text = print_module(&mut m);
    assert_eq!(
        text,
        "@g = global i32 3\n@h = constant i32 zeroinitializer\n\ndeclare void @output(i32)\n\n"
    );
}

#[test]
fn asm_for_sum() {
    let m = main_returning_sum();
    let mut g = AsmGen::new(m);
    g.run();
    let expected = "\t.text\n\t.globl main\n\t.type main, @function\nmain:\n\
\tsd ra, -8(sp)\n\tsd s0, -16(sp)\n\taddi s0, sp, 0\n\taddi sp, sp, -32\n\
.main_entry:\n# add\n\taddi t0, zero, 1\n\taddi t1, zero, 2\n\tadd t2, t0, t1\n\tsw t2, -20(s0)\n\
# ret\n\tlw a0, -20(s0)\n\tj main_exit\n\
main_exit:\n\tld ra, -8(s0)\n\tld s0, -16(s0)\n\taddi sp, sp, 32\n\tret\n";
    assert_eq!(g.print(), expected);
}

#[test]
fn asm_globals_section() {
    let mut m = Module::new();
    let i32t = m.get_int_ty();
    let arr = m.get_arr_ty(i32t, 10);
    let p = m.get_ptr_ty(arr);
    let g = GVPtr::new("buf".to_string(), &mut m, p, false, None);
    m.add_gv(g.0);
    let mut gen = AsmGen::new(m);
    gen.run();
    assert_eq!(
        gen.print(),
        "# Global variables\n\t.text\n\t.section .bss, \"aw\", @nobits\n\t.globl buf\n\t.type buf, @object\n\t.size buf, 40\nbuf:\n\t.space 40\n\t.text\n"
    );
}

#[test]
fn replace_all_uses() {
    let mut m = main_returning_sum();
    let i32t = m.get_int_ty();
    let seven = ConstantPtr::new_int(&mut m, i32t, String::new(), 7);
    let sum = ValuePtr(4);
    assert_eq!(sum.get_use_list(&m).len(), 1);
    sum.replace_all_use_with(&mut m, seven.to_val());
    assert_eq!(sum.get_use_list(&m).len(), 0);
    assert_eq!(seven.to_val().get_use_list(&m).len(), 1);
    let text = print_module(&mut m);
    assert_eq!(text, "define i32 @main() {\nentry:\n  %op5 = add i32 1, 2\n  ret i32 7\n}\n\n");
}

#[test]
fn branches_record_edges() {
    let mut m = Module::new();
    let void = m.get_void_ty();
    let fty = m.get_func_ty(void, vec![]);
    let f = FunctionPtr::create(fty, "f".to_string(), &mut m);
    let a = BasicBlockPtr::create(&mut m, "a".to_string(), f);
    let b = BasicBlockPtr::create(&mut m, "b".to_string(), f);
    InstPtr::br_inst(&mut m, b, a);
    InstPtr::void_ret_inst(&mut m, b);
    assert!(a.is_terminated(&m));
    assert_eq!(b.get_parent(&m).0, f.0);
    let text = print_module(&mut m);
    assert_eq!(
        text,
        "define void @f() {\na:\n  br label %b\nb:                                                ; preds = %a\n  ret void\n}\n\n"
    );
}

#[test]
fn removing_a_block_unlinks_it() {
    let mut m = Module::new();
    let void = m.get_void_ty();
    let fty = m.get_func_ty(void, vec![]);
    let f = FunctionPtr::create(fty, "f".to_string(), &mut m);
    let a = BasicBlockPtr::create(&mut m, "a".to_string(), f);
    let b = BasicBlockPtr::create(&mut m, "b".to_string(), f);
    let c = BasicBlockPtr::create(&mut m, "c".to_string(), f);
    InstPtr::br_inst(&mut m, b, a);
    InstPtr::br_inst(&mut m, c, b);
    InstPtr::void_ret_inst(&mut m, c);
    f.remove(&mut m, b);
    assert_eq!(f.get_bbs(&m), vec![a.0, c.0]);
    let text = print_module(&mut m);
    assert_eq!(text, "define void @f() {\na:\n  br label %b\nc:\n  ret void\n}\n\n");
}

#[test]
fn erasing_a_block_from_its_function() {
    let mut m = Module::new();
    let void = m.get_void_ty();
    let fty = m.get_func_ty(void, vec![]);
    let f = FunctionPtr::create(fty, "f".to_string(), &mut m);
    let a = BasicBlockPtr::create(&mut m, "a".to_string(), f);
    let b = BasicBlockPtr::create(&mut m, "b".to_string(), f);
    InstPtr::br_inst(&mut m, b, a);
    InstPtr::void_ret_inst(&mut m, b);
    a.erase_from_parent(&mut m);
    assert_eq!(f.get_bbs(&m), vec![b.0]);
    let text = print_module(&mut m);
    assert_eq!(text, "define void @f() {\nb:\n  ret void\n}\n\n");
}

#[test]
fn asm_initialised_global_holds_its_word() {
    let mut m = Module::new();
    let i32t = m.get_int_ty();
    let p = m.get_ptr_ty(i32t);
    let five = ConstantPtr::new_int(&mut m, i32t, String::new(), 5);
    let g = GVPtr::new("g".to_string(), &mut m, p, false, Some(five));
    m.add_gv(g.0);
    let mut gen = AsmGen::new(m);
    gen.run();
    assert_eq!(
        gen.print(),
        "# Global variables\n\t.text\n\t.section .bss, \"aw\", @nobits\n\t.section .data\n\t.globl g\n\t.type g, @object\n\t.size g, 4\ng:\n\t.word 5\n\t.text\n"
    );
}

#[test]
fn asm_globals_share_one_section_line_per_run() {
    let mut m = Module::new();
    let i32t = m.get_int_ty();
    let p = m.get_ptr_ty(i32t);
    let a = GVPtr::new("a".to_string(), &mut m, p, false, None);
    m.add_gv(a.0);
    let b = GVPtr::new("b".to_string(), &mut m, p, false, None);
    m.add_gv(b.0);
    let seven = ConstantPtr::new_int(&mut m, i32t, String::new(), 7);
    let c = GVPtr::new("c".to_string(), &mut m, p, false, Some(seven));
    m.add_gv(c.0);
    let d = GVPtr::new("d".to_string(), &mut m, p, false, None);
    m.add_gv(d.0);
    let mut gen = AsmGen::new(m);
    gen.run();
    let mut want = String::from("# Global variables\n\t.text\n\t.section .bss, \"aw\", @nobits\n");
    for n in ["a", "b"] {
        want.push_str(&format!("\t.globl {n}\n\t.type {n}, @object\n\t.size {n}, 4\n{n}:\n\t.space 4\n"));
    }
    want.push_str("\t.section .data\n\t.globl c\n\t.type c, @object\n\t.size c, 4\nc:\n\t.word 7\n");
    want.push_str("\t.section .bss, \"aw\", @nobits\n\t.globl d\n\t.type d, @object\n\t.size d, 4\nd:\n\t.space 4\n");
    want.push_str("\t.text\n");
    assert_eq!(gen.print(), want);
}

#[test]
fn float_immediate_goes_through_t0() {
    let mut g = AsmGen::new(Module::new());
    g.load_float_imm(0x3F800000, &FReg::ft(1));
    assert_eq!(g.print(), "\tlui t0, 260096\n\tfmv.w.x ft1, t0\n");
    let mut h = AsmGen::new(Module::new());
    h.load_float_imm(0x40490FDB, &FReg::fa(0));
    assert_eq!(h.print(), "\tlui t0, 263313\n\taddiw t0, t0, -37\n\tfmv.w.x fa0, t0\n");
}

#[test]
fn large_constant_near_the_top_of_i32() {
    let mut g = AsmGen::new(Module::new());
    g.load_large_int32(0x7FFFFFFF, &Reg::t(0));
    g.load_large_int32(-1, &Reg::t(1));
    assert_eq!(g.print(), "\tlui t0, 524288\n\taddiw t0, t0, -1\n\tlui t1, 0\n\taddiw t1, t1, -1\n");
}
