use hcompiler::ast::{
    AddExp, AddOp, Block, BlockItem, Btype, CompUnit, Cond, ConstDecl, ConstDef, ConstExp, ConstInitVal, Decl, EqExp,
    EqOp, Exp, FuncDef, FuncFParam, FuncFParams, FuncRParams, FuncType, GlobalItem, InitVal, LAndExp, LOrExp, LVal,
    MulExp, MulOp, Number, PrimaryExp, RelExp, RelOp, Stmt, UnaryExp, UnaryOp, VarDecl, VarDef,
};
use hcompiler::ir::user::OpID;
use hcompiler::ir::user::ConstantClass;
use hcompiler::ir::value::{BasicBlockPtr, ConstantPtr, FunctionPtr, InstPtr, ValueClass, ValuePtr};
use hcompiler::irgen::number::{fold, fold_int, FloatArith, FoldError, IntOp};
use hcompiler::irgen::scope::Scope;
use hcompiler::irgen::visit::{GenError, IRGenerator};

/// Single-precision arithmetic of the host.
struct HostFloat;

impl FloatArith for HostFloat {
    fn fadd(a: u32, b: u32) -> u32 {
        (f32::from_bits(a) + f32::from_bits(b)).to_bits()
    }
    fn fsub(a: u32, b: u32) -> u32 {
        (f32::from_bits(a) - f32::from_bits(b)).to_bits()
    }
    fn fmul(a: u32, b: u32) -> u32 {
        (f32::from_bits(a) * f32::from_bits(b)).to_bits()
    }
    fn fdiv(a: u32, b: u32) -> u32 {
        (f32::from_bits(a) / f32::from_bits(b)).to_bits()
    }
    fn frem(a: u32, b: u32) -> u32 {
        (f32::from_bits(a) % f32::from_bits(b)).to_bits()
    }
    fn int_to_float(i: i32) -> u32 {
        (i as f32).to_bits()
    }
    fn float_to_int(f: u32) -> i32 {
        f32::from_bits(f) as i32
    }
}

fn unary_of(p: PrimaryExp) -> UnaryExp {
    UnaryExp::PrimaryExp(Box::new(p))
}

fn mul_of(p: PrimaryExp) -> MulExp {
    MulExp::UnaryExp(Box::new(unary_of(p)))
}

fn add_of(p: PrimaryExp) -> AddExp {
    AddExp::MulExp(Box::new(mul_of(p)))
}

fn num(i: i32) -> PrimaryExp {
    PrimaryExp::Number(Number::IntConst(i))
}

fn fnum(f: f32) -> PrimaryExp {
    PrimaryExp::Number(Number::FloatConst(f.to_bits()))
}

fn var(name: &str) -> PrimaryExp {
    PrimaryExp::LVal(LVal { ident: name.to_string(), dims: vec![] })
}

fn exp(a: AddExp) -> Exp {
    Exp { item: a }
}

fn sum(a: AddExp, op: AddOp, b: PrimaryExp) -> AddExp {
    AddExp::AddExp(Box::new(a), op, mul_of(b))
}

fn rel(a: AddExp, op: RelOp, b: AddExp) -> RelExp {
    RelExp::RelExp(Box::new(RelExp::AddExp(a)), op, b)
}

fn land_of(r: RelExp) -> LAndExp {
    LAndExp::EqExp(EqExp::RelExp(r))
}

fn unary_exp(u: UnaryExp) -> Exp {
    exp(AddExp::MulExp(Box::new(MulExp::UnaryExp(Box::new(u)))))
}

fn exp_stmt(u: UnaryExp) -> BlockItem {
    BlockItem::Stmt(Stmt::ExpStmt(Some(unary_exp(u))))
}

fn ret(e: Option<Exp>) -> BlockItem {
    BlockItem::Stmt(Stmt::RetStmt(e))
}

fn func(ft: FuncType, name: &str, params: Option<FuncFParams>, items: Vec<BlockItem>) -> FuncDef {
    FuncDef { func_type: ft, ident: name.to_string(), block: Block { items }, func_f_params: params }
}

fn unit(items: Vec<GlobalItem>) -> CompUnit {
    CompUnit { items }
}

fn local_int(name: &str, init: Option<Exp>) -> BlockItem {
    let def = match init {
        Some(e) => VarDef::WithInitVal(name.to_string(), vec![], InitVal::Exp(e)),
        None => VarDef::Without(name.to_string(), vec![]),
    };
    BlockItem::Decl(Decl::VarDecl(VarDecl { btype: Btype::Int, var_defs: vec![def] }))
}

fn const_int_decl(name: &str, e: AddExp) -> ConstDecl {
    ConstDecl {
        btype: Btype::Int,
        const_defs: vec![ConstDef {
            ident: name.to_string(),
            const_exps: vec![],
            const_init_val: ConstInitVal::ConstExp(ConstExp { item: e }),
        }],
    }
}

fn generate(cu: &CompUnit) -> (IRGenerator, Result<(), GenError>) {
    let mut g = IRGenerator::new();
    let r = g.visit::<HostFloat>(cu);
    (g, r)
}

const RUNTIME_DECLS: &str =
    "declare i32 @input()\n\ndeclare void @output(i32)\n\ndeclare void @outputFloat(float)\n\ndeclare void @neg_idx_except()\n\n";

#[test]
fn scope_shadowing_and_exit() {
    let mut s = Scope::new();
    let a = "a".to_string();
    assert!(s.add(&a, ValuePtr(1)));
    assert!(!s.add(&a, ValuePtr(2)));
    assert!(s.find(&a) == Some(ValuePtr(1)));
    s.enter();
    assert!(s.find(&a) == Some(ValuePtr(1)));
    assert!(s.add(&a, ValuePtr(3)));
    assert!(s.find(&a) == Some(ValuePtr(3)));
    assert_eq!(s.depth(), 2);
    s.exit();
    assert!(s.find(&a) == Some(ValuePtr(1)));
    assert!(s.find(&"b".to_string()).is_none());
}

#[test]
fn integer_folding_is_exact() {
    assert!(fold_int(IntOp::Add, 2, 3) == Ok(5));
    assert!(fold_int(IntOp::Sub, 2, 3) == Ok(-1));
    assert!(fold_int(IntOp::Mul, -4, 6) == Ok(-24));
    assert!(fold_int(IntOp::Div, -7, 2) == Ok(-3));
    assert!(fold_int(IntOp::Rem, -7, 2) == Ok(-1));
    assert!(fold_int(IntOp::Rem, 7, -2) == Ok(1));
    assert!(fold_int(IntOp::Add, i32::MAX, 1) == Err(FoldError::Overflow));
    assert!(fold_int(IntOp::Mul, 65536, 65536) == Err(FoldError::Overflow));
    assert!(fold_int(IntOp::Div, i32::MIN, -1) == Err(FoldError::Overflow));
    assert!(fold_int(IntOp::Rem, i32::MIN, -1) == Err(FoldError::Overflow));
    assert!(fold_int(IntOp::Div, 1, 0) == Err(FoldError::DivisionByZero));
    assert!(fold_int(IntOp::Rem, 1, 0) == Err(FoldError::DivisionByZero));
}

#[test]
fn mixed_folding_goes_through_float() {
    let r = fold::<HostFloat>(IntOp::Add, Number::FloatConst(1.5f32.to_bits()), Number::IntConst(2));
    match r {
        Ok(Number::FloatConst(b)) => assert_eq!(f32::from_bits(b), 3.5),
        _ => panic!("expected a float"),
    }
    let r = fold::<HostFloat>(IntOp::Div, Number::IntConst(7), Number::IntConst(2));
    assert!(matches!(r, Ok(Number::IntConst(3))));
}

#[test]
fn new_generator_declares_runtime() {
    let mut g = IRGenerator::new();
    assert_eq!(g.m.func_list.len(), 4);
    assert!(g.scope.find(&"input".to_string()).is_some());
    assert!(g.scope.find(&"neg_idx_except".to_string()).is_some());
    assert_eq!(g.dump_to_string().unwrap(), RUNTIME_DECLS);
}

#[test]
fn return_of_sum_prints() {
    let body = vec![ret(Some(exp(sum(add_of(num(1)), AddOp::Add, num(2)))))];
    let cu = unit(vec![GlobalItem::FuncDef(func(FuncType::Int, "main", None, body))]);
    let (mut g, r) = generate(&cu);
    assert!(r.is_ok());
    let text = g.dump_to_string().unwrap();
    let expected = format!(
        "{}define i32 @main() {{\nentry:\n  %op11 = add i32 1, 2\n  ret i32 %op11\n}}\n\n",
        RUNTIME_DECLS
    );
    assert_eq!(text, expected);
}

#[test]
fn missing_return_gets_default() {
    let cu = unit(vec![
        GlobalItem::FuncDef(func(FuncType::Void, "f", None, vec![])),
        GlobalItem::FuncDef(func(FuncType::Float, "g", None, vec![])),
    ]);
    let (mut g, r) = generate(&cu);
    assert!(r.is_ok());
    let text = g.dump_to_string().unwrap();
    assert!(text.contains("define void @f() {\nentry:\n  ret void\n}\n"));
    assert!(text.contains("define float @g() {\nentry:\n  ret float 0x0000000000000000\n}\n"));
}

#[test]
fn global_variables_and_folded_constants() {
    let cu = unit(vec![
        GlobalItem::Decl(Decl::ConstDecl(const_int_decl("N", sum(add_of(num(2)), AddOp::Add, num(3))))),
        GlobalItem::Decl(Decl::VarDecl(VarDecl {
            btype: Btype::Int,
            var_defs: vec![
                VarDef::WithInitVal("x".to_string(), vec![], InitVal::Exp(exp(add_of(var("N"))))),
                VarDef::Without("y".to_string(), vec![]),
            ],
        })),
    ]);
    let (mut g, r) = generate(&cu);
    assert!(r.is_ok());
    let text = g.dump_to_string().unwrap();
    assert!(text.starts_with("@x = global i32 5\n@y = global i32 zeroinitializer\n\n"));
}

#[test]
fn local_variable_is_a_stack_slot() {
    let body = vec![local_int("a", Some(exp(add_of(num(7))))), ret(Some(exp(add_of(var("a")))))];
    let cu = unit(vec![GlobalItem::FuncDef(func(FuncType::Int, "main", None, body))]);
    let (mut g, r) = generate(&cu);
    assert!(r.is_ok());
    let text = g.dump_to_string().unwrap();
    assert!(text.contains("alloca i32"));
    assert!(text.contains("store i32 7, i32* %op"));
    assert!(text.contains("load i32, i32* %op"));
}

#[test]
fn short_circuit_builds_phi() {
    let c = Cond {
        item: LOrExp::LAndExp(LAndExp::LAndExp(
            Box::new(land_of(rel(add_of(var("a")), RelOp::LT, add_of(num(1))))),
            EqExp::RelExp(rel(add_of(var("a")), RelOp::GT, add_of(num(0)))),
        )),
    };
    let body = vec![
        local_int("a", Some(exp(add_of(num(0))))),
        BlockItem::Stmt(Stmt::IfStmt(c, Box::new(Stmt::RetStmt(Some(exp(add_of(num(1)))))), None)),
        ret(Some(exp(add_of(num(0))))),
    ];
    let cu = unit(vec![GlobalItem::FuncDef(func(FuncType::Int, "main", None, body))]);
    let (mut g, r) = generate(&cu);
    assert!(r.is_ok());
    let text = g.dump_to_string().unwrap();
    assert!(text.contains("phi i32 [ 0, %"));
    assert!(text.contains("icmp slt i32"));
    assert!(text.contains("br i1 %op"));
}

#[test]
fn short_circuit_or_takes_true_from_the_left() {
    let c = Cond {
        item: LOrExp::LOrExp(
            Box::new(LOrExp::LAndExp(land_of(rel(add_of(var("a")), RelOp::LT, add_of(num(1)))))),
            land_of(rel(add_of(var("a")), RelOp::GT, add_of(num(5)))),
        ),
    };
    let body = vec![
        local_int("a", Some(exp(add_of(num(3))))),
        BlockItem::Stmt(Stmt::IfStmt(c, Box::new(Stmt::RetStmt(Some(exp(add_of(num(1)))))), None)),
        ret(Some(exp(add_of(num(0))))),
    ];
    let cu = unit(vec![GlobalItem::FuncDef(func(FuncType::Int, "main", None, body))]);
    let (mut g, r) = generate(&cu);
    assert!(r.is_ok());
    assert_eq!(insts_with(&g, OpID::Phi).len(), 1);
    let text = g.dump_to_string().unwrap();
    assert!(text.contains("phi i32 [ 1, %"));
    assert!(text.contains("icmp sgt i32"));
}

#[test]
fn while_loop_has_back_edge() {
    let c = Cond { item: LOrExp::LAndExp(land_of(rel(add_of(var("i")), RelOp::LT, add_of(num(10))))) };
    let step = Stmt::AssignStmt(
        LVal { ident: "i".to_string(), dims: vec![] },
        exp(sum(add_of(var("i")), AddOp::Add, num(1))),
    );
    let body = vec![
        local_int("i", Some(exp(add_of(num(0))))),
        BlockItem::Stmt(Stmt::WhileStmt(c, Box::new(step))),
        ret(Some(exp(add_of(var("i"))))),
    ];
    let cu = unit(vec![GlobalItem::FuncDef(func(FuncType::Int, "main", None, body))]);
    let (mut g, r) = generate(&cu);
    assert!(r.is_ok());
    let f = g.m.func_list[4];
    assert_eq!(FunctionPtr(f).get_num_bbs(&g.m), 4);
    let text = g.dump_to_string().unwrap();
    assert!(text.matches("br label %").count() >= 2);
}

#[test]
fn call_converts_arguments() {
    let call = UnaryExp::CallExp("output".to_string(), Some(FuncRParams { items: vec![exp(add_of(fnum(2.5)))] }));
    let body = vec![
        exp_stmt(call),
        ret(Some(exp(add_of(num(0))))),
    ];
    let cu = unit(vec![GlobalItem::FuncDef(func(FuncType::Int, "main", None, body))]);
    let (mut g, r) = generate(&cu);
    assert!(r.is_ok());
    let text = g.dump_to_string().unwrap();
    assert!(text.contains("fptosi float"));
    assert!(text.contains("call void @output(i32 %op"));
}

#[test]
fn parameters_are_spilled() {
    let params = FuncFParams {
        items: vec![FuncFParam { btype: Btype::Float, ident: "x".to_string(), dims: None }],
    };
    let body = vec![ret(Some(exp(add_of(var("x")))))];
    let cu = unit(vec![GlobalItem::FuncDef(func(FuncType::Float, "id", Some(params), body))]);
    let (mut g, r) = generate(&cu);
    assert!(r.is_ok());
    let text = g.dump_to_string().unwrap();
    assert!(text.contains("define float @id(float %arg"));
    assert!(text.contains("alloca float"));
    assert!(text.contains("store float %arg"));
}

#[test]
fn negation_and_not() {
    let neg = UnaryExp::UnaryExp(UnaryOp::Minus, Box::new(unary_of(num(3))));
    let not = UnaryExp::UnaryExp(UnaryOp::Not, Box::new(unary_of(num(0))));
    let cu = unit(vec![
        GlobalItem::FuncDef(func(FuncType::Int, "f", None, vec![ret(Some(unary_exp(neg)))])),
        GlobalItem::FuncDef(func(FuncType::Int, "g", None, vec![ret(Some(unary_exp(not)))])),
    ]);
    let (mut g, r) = generate(&cu);
    assert!(r.is_ok());
    let text = g.dump_to_string().unwrap();
    assert!(text.contains("sub i32 0, 3"));
    assert!(text.contains("icmp eq i32 0, 0"));
    assert!(text.contains("zext i1 %op"));
}

#[test]
fn constant_folds_in_const_context() {
    let body = vec![
        BlockItem::Decl(Decl::ConstDecl(const_int_decl("k", sum(add_of(num(6)), AddOp::Sub, num(4))))),
        ret(Some(exp(add_of(var("k"))))),
    ];
    let cu = unit(vec![GlobalItem::FuncDef(func(FuncType::Int, "main", None, body))]);
    let (mut g, r) = generate(&cu);
    assert!(r.is_ok());
    let text = g.dump_to_string().unwrap();
    assert!(text.contains("ret i32 2\n"));
}

#[test]
fn error_name_not_found() {
    let body = vec![ret(Some(exp(add_of(var("x")))))];
    let cu = unit(vec![GlobalItem::FuncDef(func(FuncType::Int, "main", None, body))]);
    let (_, r) = generate(&cu);
    assert!(matches!(r, Err(GenError::NameNotFound)));
}

#[test]
fn error_not_a_function() {
    let call = UnaryExp::CallExp("a".to_string(), None);
    let body = vec![
        local_int("a", None),
        exp_stmt(call),
    ];
    let cu = unit(vec![GlobalItem::FuncDef(func(FuncType::Void, "main", None, body))]);
    let (_, r) = generate(&cu);
    assert!(matches!(r, Err(GenError::NotAFunction)));
}

#[test]
fn error_arity_mismatch() {
    let call = UnaryExp::CallExp("output".to_string(), None);
    let body = vec![exp_stmt(call)];
    let cu = unit(vec![GlobalItem::FuncDef(func(FuncType::Void, "main", None, body))]);
    let (_, r) = generate(&cu);
    assert!(matches!(r, Err(GenError::ArityMismatch)));
}

#[test]
fn error_call_in_const_context() {
    let call = UnaryExp::CallExp("input".to_string(), None);
    let e = AddExp::MulExp(Box::new(MulExp::UnaryExp(Box::new(call))));
    let cu = unit(vec![GlobalItem::Decl(Decl::ConstDecl(const_int_decl("c", e)))]);
    let (_, r) = generate(&cu);
    assert!(matches!(r, Err(GenError::CallInConstContext)));
}

#[test]
fn error_division_by_zero_in_constant() {
    let e = AddExp::MulExp(Box::new(MulExp::MulExp(Box::new(mul_of(num(1))), MulOp::Div, unary_of(num(0)))));
    let cu = unit(vec![GlobalItem::Decl(Decl::ConstDecl(const_int_decl("c", e)))]);
    let (_, r) = generate(&cu);
    assert!(matches!(r, Err(GenError::Fold(FoldError::DivisionByZero))));
}

#[test]
fn error_not_a_constant() {
    let cu = unit(vec![
        GlobalItem::Decl(Decl::VarDecl(VarDecl {
            btype: Btype::Int,
            var_defs: vec![VarDef::Without("a".to_string(), vec![])],
        })),
        GlobalItem::Decl(Decl::ConstDecl(const_int_decl("c", add_of(var("a"))))),
    ]);
    let (_, r) = generate(&cu);
    assert!(matches!(r, Err(GenError::NotAConstant)));
}

#[test]
fn error_type_mismatch_on_void_return_value() {
    let body = vec![ret(Some(exp(add_of(num(1)))))];
    let cu = unit(vec![GlobalItem::FuncDef(func(FuncType::Void, "f", None, body))]);
    let (_, r) = generate(&cu);
    assert!(matches!(r, Err(GenError::TypeMismatch)));
}

#[test]
fn error_not_scalar_init() {
    let def = VarDef::WithInitVal("a".to_string(), vec![], InitVal::InitVals(vec![]));
    let body = vec![BlockItem::Decl(Decl::VarDecl(VarDecl { btype: Btype::Int, var_defs: vec![def] }))];
    let cu = unit(vec![GlobalItem::FuncDef(func(FuncType::Void, "f", None, body))]);
    let (_, r) = generate(&cu);
    assert!(matches!(r, Err(GenError::NotScalarInit)));
}

#[test]
fn error_no_insert_point_outside_function() {
    let mut g = IRGenerator::new();
    let r = g.visit_stmt::<HostFloat>(&Stmt::RetStmt(None));
    assert!(matches!(r, Err(GenError::NoInsertPoint)));
}

#[test]
fn error_block_terminated_after_return() {
    let cu = unit(vec![GlobalItem::FuncDef(func(FuncType::Void, "f", None, vec![]))]);
    let (mut g, r) = generate(&cu);
    assert!(r.is_ok());
    let s = Stmt::ExpStmt(Some(exp(sum(add_of(num(1)), AddOp::Add, num(2)))));
    let r = g.visit_stmt::<HostFloat>(&s);
    assert!(matches!(r, Err(GenError::BlockTerminated)));
}

#[test]
fn statements_after_return_are_dropped() {
    let body = vec![ret(Some(exp(add_of(num(1))))), ret(Some(exp(add_of(num(2)))))];
    let cu = unit(vec![GlobalItem::FuncDef(func(FuncType::Int, "main", None, body))]);
    let (mut g, r) = generate(&cu);
    assert!(r.is_ok());
    let text = g.dump_to_string().unwrap();
    assert!(text.contains("ret i32 1\n"));
    assert!(!text.contains("ret i32 2"));
}

#[test]
fn break_outside_loop_is_refused() {
    let mut g = IRGenerator::new();
    let before = g.m.values.len();
    assert!(matches!(g.visit_stmt::<HostFloat>(&Stmt::BreakStmt), Err(GenError::NoEnclosingLoop)));
    assert!(matches!(g.visit_stmt::<HostFloat>(&Stmt::ContStmt), Err(GenError::NoEnclosingLoop)));
    assert_eq!(g.m.values.len(), before);
}

#[test]
fn break_and_continue_branch_out_of_the_loop() {
    for (jump, target) in [(Stmt::BreakStmt, 3usize), (Stmt::ContStmt, 1usize)] {
        let c = Cond { item: LOrExp::LAndExp(land_of(rel(add_of(num(1)), RelOp::LT, add_of(num(2))))) };
        let body = vec![BlockItem::Stmt(Stmt::WhileStmt(c, Box::new(jump))), ret(Some(exp(add_of(num(0)))))];
        let cu = unit(vec![GlobalItem::FuncDef(func(FuncType::Int, "main", None, body))]);
        let (g, r) = generate(&cu);
        assert!(r.is_ok());
        let f = g.m.func_list[4];
        let bbs = FunctionPtr(f).get_bbs(&g.m);
        assert_eq!(bbs.len(), 4);
        let insts = BasicBlockPtr(bbs[2]).get_insts(&g.m);
        let last = *insts.last().unwrap();
        assert!(matches!(InstPtr(last).get_inst_op_id(&g.m), OpID::Br));
        assert_eq!(g.m.values[last].operands, vec![bbs[target]]);
    }
}

#[test]
fn equality_compare_of_floats() {
    let e = EqExp::EqExp(
        Box::new(EqExp::RelExp(RelExp::AddExp(add_of(fnum(1.0))))),
        EqOp::NE,
        RelExp::AddExp(add_of(num(1))),
    );
    let c = Cond { item: LOrExp::LAndExp(LAndExp::EqExp(e)) };
    let body = vec![
        BlockItem::Stmt(Stmt::IfStmt(c, Box::new(Stmt::RetStmt(Some(exp(add_of(num(1)))))), None)),
        ret(Some(exp(add_of(num(0))))),
    ];
    let cu = unit(vec![GlobalItem::FuncDef(func(FuncType::Int, "main", None, body))]);
    let (mut g, r) = generate(&cu);
    assert!(r.is_ok());
    let text = g.dump_to_string().unwrap();
    assert!(text.contains("sitofp i32 1 to float"));
    assert!(text.contains("fcmp une float") || text.contains("fcmp one float") || text.contains("fcmp ne"));
}

#[test]
fn unprintable_module_gives_none() {
    let mut g = IRGenerator::new();
    let void = g.m.get_void_ty();
    let int = g.m.get_int_ty();
    let fty = g.m.get_func_ty(void, vec![]);
    let f = FunctionPtr::create(fty, "f".to_string(), &mut g.m);
    let b = BasicBlockPtr::create(&mut g.m, "entry".to_string(), f);
    let c = ConstantPtr::new_int(&mut g.m, int, String::new(), 1);
    InstPtr::create(&mut g.m, int, OpID::Load, b, vec![c.to_val()]);
    assert!(g.dump_to_string().is_none());
}

#[test]
fn printing_twice_gives_same_text() {
    let body = vec![local_int("a", Some(exp(add_of(num(3))))), ret(Some(exp(sum(add_of(var("a")), AddOp::Add, num(1)))))];
    let cu = unit(vec![GlobalItem::FuncDef(func(FuncType::Int, "main", None, body))]);
    let (mut g, r) = generate(&cu);
    assert!(r.is_ok());
    let first = g.dump_to_string().unwrap();
    let second = g.dump_to_string().unwrap();
    assert_eq!(first, second);
}

/// The values of `g`'s module that are instructions with opcode `id`.
fn insts_with(g: &IRGenerator, id: OpID) -> Vec<usize> {
    let mut r = Vec::new();
    for i in 0..g.m.values.len() {
        if let ValueClass::Inst { op_id, .. } = &g.m.values[i].class {
            if *op_id == id {
                r.push(i);
            }
        }
    }
    r
}

fn local_float(name: &str, e: Exp) -> BlockItem {
    BlockItem::Decl(Decl::VarDecl(VarDecl {
        btype: Btype::Float,
        var_defs: vec![VarDef::WithInitVal(name.to_string(), vec![], InitVal::Exp(e))],
    }))
}

#[test]
fn float_arithmetic_is_typed_float() {
    let body = vec![ret(Some(exp(sum(add_of(fnum(1.5)), AddOp::Add, fnum(2.5)))))];
    let cu = unit(vec![GlobalItem::FuncDef(func(FuncType::Float, "main", None, body))]);
    let (g, r) = generate(&cu);
    assert!(r.is_ok());
    let adds = insts_with(&g, OpID::FAdd);
    assert_eq!(adds.len(), 1);
    assert_eq!(g.m.values[adds[0]].type_, g.m.get_float_ty());
}

#[test]
fn int_initialiser_of_float_local_is_converted() {
    let body = vec![local_float("x", exp(add_of(num(1)))), ret(Some(exp(add_of(num(0)))))];
    let cu = unit(vec![GlobalItem::FuncDef(func(FuncType::Int, "main", None, body))]);
    let (mut g, r) = generate(&cu);
    assert!(r.is_ok());
    let convs = insts_with(&g, OpID::SIToFP);
    assert_eq!(convs.len(), 1);
    let stores = insts_with(&g, OpID::Store);
    assert_eq!(stores.len(), 1);
    assert_eq!(g.m.values[stores[0]].operands[0], convs[0]);
    let text = g.dump_to_string().unwrap();
    assert!(text.contains("sitofp i32 1 to float"));
}

#[test]
fn bool_converted_to_float_goes_through_i32() {
    let not_y = UnaryExp::UnaryExp(UnaryOp::Not, Box::new(unary_of(var("y"))));
    let body = vec![
        local_int("y", Some(exp(add_of(num(0))))),
        local_float("x", unary_exp(not_y)),
        ret(Some(exp(add_of(num(0))))),
    ];
    let cu = unit(vec![GlobalItem::FuncDef(func(FuncType::Int, "main", None, body))]);
    let (g, r) = generate(&cu);
    assert!(r.is_ok());
    let convs = insts_with(&g, OpID::SIToFP);
    assert_eq!(convs.len(), 1);
    let z = g.m.values[convs[0]].operands[0];
    assert!(matches!(g.m.values[z].class, ValueClass::Inst { op_id: OpID::ZExt, .. }));
    assert_eq!(g.m.values[z].type_, g.m.get_int_ty());
    assert_eq!(g.m.values[convs[0]].type_, g.m.get_float_ty());
}

#[test]
fn float_global_with_int_initialiser_holds_a_float() {
    let cu = unit(vec![GlobalItem::Decl(Decl::VarDecl(VarDecl {
        btype: Btype::Float,
        var_defs: vec![VarDef::WithInitVal("g".to_string(), vec![], InitVal::Exp(exp(add_of(num(1)))))],
    }))]);
    let (mut g, r) = generate(&cu);
    assert!(r.is_ok());
    let gv = g.m.gv_list[0];
    let c = match &g.m.values[gv].class {
        ValueClass::GlobalVariable { init_val: Some(c), .. } => *c,
        _ => panic!("no initial value"),
    };
    assert!(matches!(g.m.values[c].class, ValueClass::Constant(ConstantClass::Float(b)) if b == 1.0f32.to_bits()));
    assert_eq!(g.m.values[c].type_, g.m.get_float_ty());
    let text = g.dump_to_string().unwrap();
    assert!(text.starts_with("@g = global float 0x3FF0000000000000\n"));
}

#[test]
fn truth_of_a_float_compares_with_float_zero() {
    let c = Cond { item: LOrExp::LAndExp(land_of(RelExp::AddExp(add_of(var("f"))))) };
    let body = vec![
        local_float("f", exp(add_of(fnum(0.5)))),
        BlockItem::Stmt(Stmt::IfStmt(c, Box::new(Stmt::RetStmt(Some(exp(add_of(num(1)))))), None)),
        ret(Some(exp(add_of(num(0))))),
    ];
    let cu = unit(vec![GlobalItem::FuncDef(func(FuncType::Int, "main", None, body))]);
    let (g, r) = generate(&cu);
    assert!(r.is_ok());
    let cmps = insts_with(&g, OpID::FNe);
    assert_eq!(cmps.len(), 1);
    let zero = g.m.values[cmps[0]].operands[1];
    assert!(matches!(g.m.values[zero].class, ValueClass::Constant(ConstantClass::Float(0))));
}

#[test]
fn remainder_is_division_product_and_difference() {
    let rem = AddExp::MulExp(Box::new(MulExp::MulExp(Box::new(mul_of(var("a"))), MulOp::Mod, unary_of(var("b")))));
    let body = vec![
        local_int("a", Some(exp(add_of(num(7))))),
        local_int("b", Some(exp(add_of(num(3))))),
        ret(Some(exp(rem))),
    ];
    let cu = unit(vec![GlobalItem::FuncDef(func(FuncType::Int, "main", None, body))]);
    let (g, r) = generate(&cu);
    assert!(r.is_ok());
    let divs = insts_with(&g, OpID::SDiv);
    let muls = insts_with(&g, OpID::Mul);
    let subs = insts_with(&g, OpID::Sub);
    assert_eq!((divs.len(), muls.len(), subs.len()), (1, 1, 1));
    let d = &g.m.values[divs[0]].operands;
    assert_eq!(g.m.values[muls[0]].operands, vec![divs[0], d[1]]);
    assert_eq!(g.m.values[subs[0]].operands, vec![d[0], muls[0]]);
    let loads = insts_with(&g, OpID::Load);
    assert_eq!(loads.len(), 2);
    assert_eq!(d.clone(), vec![loads[0], loads[1]]);
}

#[test]
fn subtraction_keeps_operand_order() {
    let diff = sum(add_of(var("a")), AddOp::Sub, var("b"));
    let body = vec![
        local_int("a", Some(exp(add_of(num(7))))),
        local_int("b", Some(exp(add_of(num(3))))),
        ret(Some(exp(diff))),
    ];
    let cu = unit(vec![GlobalItem::FuncDef(func(FuncType::Int, "main", None, body))]);
    let (g, r) = generate(&cu);
    assert!(r.is_ok());
    let subs = insts_with(&g, OpID::Sub);
    assert_eq!(subs.len(), 1);
    let loads = insts_with(&g, OpID::Load);
    assert_eq!(g.m.values[subs[0]].operands, vec![loads[0], loads[1]]);
    let slots = insts_with(&g, OpID::Alloca);
    assert_eq!(g.m.values[loads[0]].operands, vec![slots[0]]);
    assert_eq!(g.m.values[loads[1]].operands, vec![slots[1]]);
}
