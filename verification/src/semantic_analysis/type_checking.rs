//! Checks that functions are declared consistently, defined at most once, called
//! with as many arguments as they take, and that variables and functions are not
//! used one for the other.
use vstd::hash_map::StringHashMap;
use vstd::prelude::*;

use crate::parser;
use crate::parser::{BlockItemModel, DeclarationModel, ExpressionModel, ForInitModel, FunctionModel, StatementModel, VariableModel};

verus! {

broadcast use vstd::std_specs::vec::group_vec_axioms;

#[derive(Debug, Clone, Copy, PartialEq, Eq, Structural)]
pub enum Type {
    Int,
    FunType { param_count: u32 },
}

#[derive(Debug, Clone, Copy, PartialEq, Eq, Structural)]
pub struct Symbol {
    pub kind: Type,
    pub defined: bool,
}

/// The table of what every name that has been declared so far stands for.
pub struct Symbols {
    map: StringHashMap<Symbol>,
}

impl View for Symbols {
    type V = Map<Seq<char>, Symbol>;

    closed spec fn view(&self) -> Map<Seq<char>, Symbol> {
        self.map@
    }
}

impl Symbols {
    pub fn new() -> (result: Self)
        ensures
            result@ == Map::<Seq<char>, Symbol>::empty(),
    {
        Symbols { map: StringHashMap::new() }
    }

    /// What `name` stands for, if it has been declared.
    pub fn get(&self, name: &str) -> (result: Option<&Symbol>)
        ensures
            match result {
                Some(s) => self@.contains_key(name@) && *s == self@[name@],
                None => !self@.contains_key(name@),
            },
    {
        self.map.get(name)
    }

    pub fn insert(&mut self, name: String, symbol: Symbol)
        ensures
            final(self)@ == old(self)@.insert(name@, symbol),
    {
        self.map.insert(name, symbol);
    }

    /// The number of names declared.
    pub fn len(&self) -> (result: usize)
        ensures
            result == self@.len(),
    {
        self.map.len()
    }
}

/// Why a program does not type-check.
#[derive(Debug)]
pub enum TypeError {
    /// A function declared again with another number of parameters, or a
    /// variable's name declared as a function.
    IncompatibleDeclaration { name: String, previous: Type, declared: Type },
    /// A function given a body twice.
    DuplicateDefinition(String),
    /// A variable called as a function.
    VariableUsedAsFunction(String),
    /// A function's name used as a variable.
    FunctionUsedAsVariable(String),
    /// A call with more or fewer arguments than the function takes.
    WrongArgumentCount(String),
    /// A name used where nothing of that name has been declared.
    UndeclaredIdentifier(String),
}

pub enum TypeErrorModel {
    IncompatibleDeclaration { name: Seq<char>, previous: Type, declared: Type },
    DuplicateDefinition(Seq<char>),
    VariableUsedAsFunction(Seq<char>),
    FunctionUsedAsVariable(Seq<char>),
    WrongArgumentCount(Seq<char>),
    UndeclaredIdentifier(Seq<char>),
}

impl View for TypeError {
    type V = TypeErrorModel;

    open spec fn view(&self) -> TypeErrorModel {
        match self {
            TypeError::IncompatibleDeclaration { name, previous, declared } => TypeErrorModel::IncompatibleDeclaration {
                name: name@,
                previous: *previous,
                declared: *declared,
            },
            TypeError::DuplicateDefinition(n) => TypeErrorModel::DuplicateDefinition(n@),
            TypeError::VariableUsedAsFunction(n) => TypeErrorModel::VariableUsedAsFunction(n@),
            TypeError::FunctionUsedAsVariable(n) => TypeErrorModel::FunctionUsedAsVariable(n@),
            TypeError::WrongArgumentCount(n) => TypeErrorModel::WrongArgumentCount(n@),
            TypeError::UndeclaredIdentifier(n) => TypeErrorModel::UndeclaredIdentifier(n@),
        }
    }
}

pub type SymbolMap = Map<Seq<char>, Symbol>;

/// The table after a check, or the first error.
pub type Checked = Result<SymbolMap, TypeErrorModel>;

pub open spec fn int_symbol() -> Symbol {
    Symbol { kind: Type::Int, defined: false }
}

/// The type of a function with `n` parameters, the count kept in a `u32`.
pub open spec fn function_type(n: nat) -> Type {
    Type::FunType { param_count: n as u32 }
}

/// A use of `name` as a variable.
pub open spec fn spec_check_var(name: Seq<char>, m: SymbolMap) -> Result<(), TypeErrorModel> {
    if !m.contains_key(name) {
        Err(TypeErrorModel::UndeclaredIdentifier(name))
    } else if m[name].kind != Type::Int {
        Err(TypeErrorModel::FunctionUsedAsVariable(name))
    } else {
        Ok(())
    }
}

/// An expression reads the table and never changes it.
pub open spec fn spec_check_exp(e: ExpressionModel, m: SymbolMap) -> Result<(), TypeErrorModel>
    decreases e,
{
    match e {
        ExpressionModel::FunctionCall { identifier, args } => if !m.contains_key(identifier) {
            Err(TypeErrorModel::UndeclaredIdentifier(identifier))
        } else {
            match m[identifier].kind {
                Type::Int => Err(TypeErrorModel::VariableUsedAsFunction(identifier)),
                Type::FunType { param_count } => if param_count != (args.len() as u32) {
                    Err(TypeErrorModel::WrongArgumentCount(identifier))
                } else {
                    spec_check_args(args, m)
                },
            }
        },
        ExpressionModel::Var(name) => spec_check_var(name, m),
        ExpressionModel::Unary { operand, .. } => spec_check_exp(*operand, m),
        ExpressionModel::Binary { left_expression, right_expression, .. } => match spec_check_exp(*left_expression, m) {
            Ok(()) => spec_check_exp(*right_expression, m),
            Err(err) => Err(err),
        },
        ExpressionModel::Assignment { lvalue, expression } => match spec_check_exp(*lvalue, m) {
            Ok(()) => spec_check_exp(*expression, m),
            Err(err) => Err(err),
        },
        ExpressionModel::Conditional { condition, then, otherwise } => match spec_check_exp(*condition, m) {
            Ok(()) => match spec_check_exp(*then, m) {
                Ok(()) => spec_check_exp(*otherwise, m),
                Err(err) => Err(err),
            },
            Err(err) => Err(err),
        },
        ExpressionModel::Constant(_) => Ok(()),
    }
}

/// The arguments of a call, from left to right.
pub open spec fn spec_check_args(args: Seq<ExpressionModel>, m: SymbolMap) -> Result<(), TypeErrorModel>
    decreases args,
{
    if args.len() == 0 {
        Ok(())
    } else {
        match spec_check_args(args.drop_last(), m) {
            Ok(()) => spec_check_exp(args.last(), m),
            Err(err) => Err(err),
        }
    }
}

/// After an expression check, the table is unchanged.
pub open spec fn then_table(r: Result<(), TypeErrorModel>, m: SymbolMap) -> Checked {
    match r {
        Ok(()) => Ok(m),
        Err(err) => Err(err),
    }
}

pub open spec fn spec_check_optional_exp(e: Option<ExpressionModel>, m: SymbolMap) -> Checked {
    match e {
        Some(e) => then_table(spec_check_exp(e, m), m),
        None => Ok(m),
    }
}

/// A variable declaration declares an `int`, then checks its initializer.
pub open spec fn spec_check_variable(v: VariableModel, m: SymbolMap) -> Checked {
    spec_check_optional_exp(v.init, m.insert(v.name, int_symbol()))
}

/// The parameters of a definition, each declared an `int` in turn.
pub open spec fn declare_params(params: Seq<Seq<char>>, m: SymbolMap) -> SymbolMap
    decreases params.len(),
{
    if params.len() == 0 {
        m
    } else {
        declare_params(params.drop_last(), m).insert(params.last(), int_symbol())
    }
}

/// A function declaration: it must agree with an earlier one in the number of
/// parameters, and only one of them may have a body.
pub open spec fn spec_check_function(f: FunctionModel, m: SymbolMap) -> Checked
    decreases f,
{
    let fun_type = function_type(f.params.len());
    let has_body = f.body is Some;
    if m.contains_key(f.name) && m[f.name].kind != fun_type {
        Err(TypeErrorModel::IncompatibleDeclaration { name: f.name, previous: m[f.name].kind, declared: fun_type })
    } else if m.contains_key(f.name) && m[f.name].defined && has_body {
        Err(TypeErrorModel::DuplicateDefinition(f.name))
    } else {
        let already_defined = m.contains_key(f.name) && m[f.name].defined;
        let m1 = m.insert(f.name, Symbol { kind: fun_type, defined: already_defined || has_body });
        match f.body {
            Some(items) => spec_check_items(items, declare_params(f.params, m1)),
            None => Ok(m1),
        }
    }
}

pub open spec fn spec_check_items(items: Seq<BlockItemModel>, m: SymbolMap) -> Checked
    decreases items,
{
    if items.len() == 0 {
        Ok(m)
    } else {
        match spec_check_items(items.drop_last(), m) {
            Ok(m1) => spec_check_item(items.last(), m1),
            Err(err) => Err(err),
        }
    }
}

pub open spec fn spec_check_item(item: BlockItemModel, m: SymbolMap) -> Checked
    decreases item,
{
    match item {
        BlockItemModel::S(s) => spec_check_statement(s, m),
        BlockItemModel::D(DeclarationModel::FunDecl(f)) => spec_check_function(f, m),
        BlockItemModel::D(DeclarationModel::VarDecl(v)) => spec_check_variable(v, m),
    }
}

pub open spec fn spec_check_statement(s: StatementModel, m: SymbolMap) -> Checked
    decreases s,
{
    match s {
        StatementModel::Compound(items) => spec_check_items(items, m),
        StatementModel::Expression(e) => then_table(spec_check_exp(e, m), m),
        StatementModel::Return(e) => then_table(spec_check_exp(e, m), m),
        StatementModel::If { condition, then, otherwise } => match spec_check_exp(condition, m) {
            Ok(()) => match spec_check_statement(*then, m) {
                Ok(m1) => match otherwise {
                    Some(o) => spec_check_statement(*o, m1),
                    None => Ok(m1),
                },
                Err(err) => Err(err),
            },
            Err(err) => Err(err),
        },
        StatementModel::While { condition, body } => match spec_check_exp(condition, m) {
            Ok(()) => spec_check_statement(*body, m),
            Err(err) => Err(err),
        },
        StatementModel::DoWhile { condition, body } => match spec_check_exp(condition, m) {
            Ok(()) => spec_check_statement(*body, m),
            Err(err) => Err(err),
        },
        StatementModel::For { init, condition, post, body } => match spec_check_for_init(init, m) {
            Ok(m1) => match spec_check_optional_exp(condition, m1) {
                Ok(m2) => match spec_check_optional_exp(post, m2) {
                    Ok(m3) => spec_check_statement(*body, m3),
                    Err(err) => Err(err),
                },
                Err(err) => Err(err),
            },
            Err(err) => Err(err),
        },
        StatementModel::Break | StatementModel::Continue | StatementModel::Null => Ok(m),
    }
}

pub open spec fn spec_check_for_init(init: ForInitModel, m: SymbolMap) -> Checked {
    match init {
        ForInitModel::D(v) => spec_check_variable(v, m),
        ForInitModel::E(e) => spec_check_optional_exp(e, m),
    }
}

/// The functions of a program, in order, starting from `m`.
pub open spec fn spec_check_functions(fs: Seq<FunctionModel>, m: SymbolMap) -> Checked
    decreases fs.len(),
{
    if fs.len() == 0 {
        Ok(m)
    } else {
        match spec_check_functions(fs.drop_last(), m) {
            Ok(m1) => spec_check_function(fs.last(), m1),
            Err(err) => Err(err),
        }
    }
}

/// What a check that changes the table came to.
pub open spec fn checked_outcome(r: Result<(), TypeError>, m: SymbolMap) -> Checked {
    match r {
        Ok(()) => Ok(m),
        Err(err) => Err(err@),
    }
}

pub open spec fn unit_outcome(r: Result<(), TypeError>) -> Result<(), TypeErrorModel> {
    match r {
        Ok(()) => Ok(()),
        Err(err) => Err(err@),
    }
}

pub proof fn lemma_args_prefix_error(args: Seq<ExpressionModel>, k: int, m: SymbolMap)
    requires
        0 <= k <= args.len(),
        spec_check_args(args.take(k), m) is Err,
    ensures
        spec_check_args(args, m) == spec_check_args(args.take(k), m),
    decreases args.len() - k,
{
    if k < args.len() {
        assert(args.take(k + 1).drop_last() =~= args.take(k));
        lemma_args_prefix_error(args, k + 1, m);
    } else {
        assert(args.take(k) =~= args);
    }
}

pub proof fn lemma_items_prefix_error(items: Seq<BlockItemModel>, k: int, m: SymbolMap)
    requires
        0 <= k <= items.len(),
        spec_check_items(items.take(k), m) is Err,
    ensures
        spec_check_items(items, m) == spec_check_items(items.take(k), m),
    decreases items.len() - k,
{
    if k < items.len() {
        assert(items.take(k + 1).drop_last() =~= items.take(k));
        lemma_items_prefix_error(items, k + 1, m);
    } else {
        assert(items.take(k) =~= items);
    }
}

pub proof fn lemma_functions_prefix_error(fs: Seq<FunctionModel>, k: int, m: SymbolMap)
    requires
        0 <= k <= fs.len(),
        spec_check_functions(fs.take(k), m) is Err,
    ensures
        spec_check_functions(fs, m) == spec_check_functions(fs.take(k), m),
    decreases fs.len() - k,
{
    if k < fs.len() {
        assert(fs.take(k + 1).drop_last() =~= fs.take(k));
        lemma_functions_prefix_error(fs, k + 1, m);
    } else {
        assert(fs.take(k) =~= fs);
    }
}

/// Type-checks every function of a program in order and returns the table of
/// what each name was last declared as.
pub fn try_check_types(program: &parser::Program) -> (result: Result<Symbols, TypeError>)
    ensures
        spec_check_functions(program@, Map::empty()) == match result {
            Ok(symbols) => Ok(symbols@),
            Err(err) => Err::<SymbolMap, TypeErrorModel>(err@),
        },
{
    let mut symbols = Symbols::new();
    let ghost all = program@;
    let ghost m0 = symbols@;
    proof {
        assert(all.take(0) =~= seq![]);
    }
    let mut i: usize = 0;
    while i < program.functions.len()
        invariant
            i <= program.functions.len(),
            all == program@,
            all.len() == program.functions@.len(),
            m0 == Map::<Seq<char>, Symbol>::empty(),
            spec_check_functions(all.take(i as int), m0) == Ok::<SymbolMap, TypeErrorModel>(symbols@),
        decreases program.functions.len() - i,
    {
        proof {
            assert(all.take(i + 1).drop_last() =~= all.take(i as int));
            assert(all.take(i + 1).last() == program.functions@[i as int]@);
        }
        match try_typecheck_function_declaration(&program.functions[i], &mut symbols) {
            Ok(()) => {},
            Err(err) => {
                proof {
                    lemma_functions_prefix_error(all, i + 1, m0);
                }
                return Err(err);
            },
        }
        i = i + 1;
    }
    proof {
        assert(all.take(all.len() as int) =~= all);
    }
    Ok(symbols)
}

/// A function declaration or definition. Its name is entered with its number of
/// parameters; a definition also declares its parameters and checks its body.
pub fn try_typecheck_function_declaration(fd: &parser::FunctionDeclaration, symbols: &mut Symbols) -> (result: Result<
    (),
    TypeError,
>)
    ensures
        spec_check_function(fd@, old(symbols)@) == checked_outcome(result, final(symbols)@),
    decreases fd,
{
    let fun_type = Type::FunType { param_count: fd.params.len() as u32 };
    let has_body = fd.body.is_some();
    let mut already_defined = false;
    match symbols.get(fd.name.as_str()) {
        Some(previous_declaration) => {
            if previous_declaration.kind != fun_type {
                return Err(
                    TypeError::IncompatibleDeclaration {
                        name: fd.name.clone(),
                        previous: previous_declaration.kind,
                        declared: fun_type,
                    },
                );
            }
            already_defined = previous_declaration.defined;
            if already_defined && has_body {
                return Err(TypeError::DuplicateDefinition(fd.name.clone()));
            }
        },
        None => {},
    }
    symbols.insert(fd.name.clone(), Symbol { kind: fun_type, defined: already_defined || has_body });
    match &fd.body {
        Some(body) => {
            let ghost params = parser::names_model(fd.params@);
            let ghost m1 = symbols@;
            proof {
                assert(params.take(0) =~= seq![]);
            }
            let mut i: usize = 0;
            while i < fd.params.len()
                invariant
                    i <= fd.params.len(),
                    params == parser::names_model(fd.params@),
                    symbols@ == declare_params(params.take(i as int), m1),
                decreases fd.params.len() - i,
            {
                proof {
                    assert(params.take(i + 1).drop_last() =~= params.take(i as int));
                }
                symbols.insert(fd.params[i].clone(), Symbol { kind: Type::Int, defined: false });
                i = i + 1;
            }
            proof {
                assert(params.take(params.len() as int) =~= params);
            }
            try_typecheck_block(body, symbols)
        },
        None => Ok(()),
    }
}

/// The items of a block, in order.
#[verifier::loop_isolation(false)]
pub fn try_typecheck_block(block: &parser::Block, symbols: &mut Symbols) -> (result: Result<(), TypeError>)
    ensures
        spec_check_items(block@, old(symbols)@) == checked_outcome(result, final(symbols)@),
    decreases block,
{
    let ghost all = block@;
    let ghost m0 = symbols@;
    proof {
        parser::lemma_block_items_model_index(block.0@);
        assert(all.take(0) =~= seq![]);
    }
    let mut i: usize = 0;
    while i < block.0.len()
        invariant
            i <= block.0.len(),
            all == parser::block_items_model(block.0@),
            all.len() == block.0@.len(),
            forall|j: int| 0 <= j < block.0@.len() ==> #[trigger] all[j] == block.0@[j]@,
            spec_check_items(all.take(i as int), m0) == Ok::<SymbolMap, TypeErrorModel>(symbols@),
        decreases block.0.len() - i,
    {
        proof {
            assert(all.take(i + 1).drop_last() =~= all.take(i as int));
            assert(decreases_to!(block => block.0@[i as int]));
        }
        match try_typecheck_block_item(&block.0[i], symbols) {
            Ok(()) => {},
            Err(err) => {
                proof {
                    lemma_items_prefix_error(all, i + 1, m0);
                }
                return Err(err);
            },
        }
        i = i + 1;
    }
    proof {
        assert(all.take(all.len() as int) =~= all);
    }
    Ok(())
}

pub fn try_typecheck_block_item(block_item: &parser::BlockItem, symbols: &mut Symbols) -> (result: Result<(), TypeError>)
    ensures
        spec_check_item(block_item@, old(symbols)@) == checked_outcome(result, final(symbols)@),
    decreases block_item,
{
    match block_item {
        parser::BlockItem::S(statement) => try_typecheck_statement(statement, symbols),
        parser::BlockItem::D(declaration) => try_typecheck_declaration(declaration, symbols),
    }
}

/// A statement: the expressions in it are checked, and the declarations in it
/// are entered into the table.
pub fn try_typecheck_statement(statement: &parser::Statement, symbols: &mut Symbols) -> (result: Result<(), TypeError>)
    ensures
        spec_check_statement(statement@, old(symbols)@) == checked_outcome(result, final(symbols)@),
    decreases statement,
{
    match statement {
        parser::Statement::Compound(block) => try_typecheck_block(block, symbols),
        parser::Statement::Expression(exp) => try_typecheck_exp(exp, symbols),
        parser::Statement::Return(exp) => try_typecheck_exp(exp, symbols),
        parser::Statement::If { condition, then, otherwise } => {
            try_typecheck_exp(condition, symbols)?;
            try_typecheck_statement(then, symbols)?;
            match otherwise {
                Some(s) => try_typecheck_statement(s, symbols),
                None => Ok(()),
            }
        },
        parser::Statement::While { condition, body } => {
            try_typecheck_exp(condition, symbols)?;
            try_typecheck_statement(body, symbols)
        },
        parser::Statement::DoWhile { condition, body } => {
            try_typecheck_exp(condition, symbols)?;
            try_typecheck_statement(body, symbols)
        },
        parser::Statement::For { init, condition, post, body } => {
            try_typecheck_for_init(init, symbols)?;
            match condition {
                Some(e) => try_typecheck_exp(e, symbols)?,
                None => {},
            }
            match post {
                Some(e) => try_typecheck_exp(e, symbols)?,
                None => {},
            }
            try_typecheck_statement(body, symbols)
        },
        parser::Statement::Break | parser::Statement::Continue | parser::Statement::Null => Ok(()),
    }
}

pub fn try_typecheck_for_init(for_init: &parser::ForInit, symbols: &mut Symbols) -> (result: Result<(), TypeError>)
    ensures
        spec_check_for_init(for_init@, old(symbols)@) == checked_outcome(result, final(symbols)@),
{
    match for_init {
        parser::ForInit::D(vd) => try_typecheck_variable_declaration(vd, symbols),
        parser::ForInit::E(exp) => match exp {
            Some(e) => try_typecheck_exp(e, symbols),
            None => Ok(()),
        },
    }
}

pub fn try_typecheck_declaration(declaration: &parser::Declaration, symbols: &mut Symbols) -> (result: Result<(), TypeError>)
    ensures
        spec_check_item(BlockItemModel::D(declaration@), old(symbols)@) == checked_outcome(result, final(symbols)@),
    decreases declaration,
{
    match declaration {
        parser::Declaration::FunDecl(fd) => try_typecheck_function_declaration(fd, symbols),
        parser::Declaration::VarDecl(vd) => try_typecheck_variable_declaration(vd, symbols),
    }
}

/// A variable is declared an `int`; then its initializer is checked.
pub fn try_typecheck_variable_declaration(vd: &parser::VariableDeclaration, symbols: &mut Symbols) -> (result: Result<
    (),
    TypeError,
>)
    ensures
        spec_check_variable(vd@, old(symbols)@) == checked_outcome(result, final(symbols)@),
{
    symbols.insert(vd.name.clone(), Symbol { kind: Type::Int, defined: false });
    match &vd.init {
        Some(e) => try_typecheck_exp(e, symbols),
        None => Ok(()),
    }
}

/// An expression: every name it uses must be declared, as a variable where it
/// is read or assigned and as a function of as many parameters where it is
/// called. The table is not changed.
#[verifier::loop_isolation(false)]
pub fn try_typecheck_exp(exp: &parser::Expression, symbols: &mut Symbols) -> (result: Result<(), TypeError>)
    ensures
        final(symbols)@ == old(symbols)@,
        spec_check_exp(exp@, old(symbols)@) == unit_outcome(result),
    decreases exp,
{
    match exp {
        parser::Expression::FunctionCall { identifier, args } => {
            let kind = match symbols.get(identifier.as_str()) {
                Some(symbol) => symbol.kind,
                None => {
                    return Err(TypeError::UndeclaredIdentifier(identifier.clone()));
                },
            };
            match kind {
                Type::Int => Err(TypeError::VariableUsedAsFunction(identifier.clone())),
                Type::FunType { param_count } => {
                    proof {
                        parser::lemma_expressions_model_index(args@);
                    }
                    if param_count != args.len() as u32 {
                        return Err(TypeError::WrongArgumentCount(identifier.clone()));
                    }
                    let ghost all = parser::expressions_model(args@);
                    let ghost m0 = symbols@;
                    proof {
                        parser::lemma_expressions_model_index(args@);
                        assert(all.take(0) =~= seq![]);
                    }
                    let mut i: usize = 0;
                    while i < args.len()
                        invariant
                            i <= args.len(),
                            all == parser::expressions_model(args@),
                            all.len() == args@.len(),
                            forall|j: int| 0 <= j < args@.len() ==> #[trigger] all[j] == args@[j]@,
                            symbols@ == m0,
                            spec_check_args(all.take(i as int), m0) == Ok::<(), TypeErrorModel>(()),
                        decreases args.len() - i,
                    {
                        proof {
                            assert(all.take(i + 1).drop_last() =~= all.take(i as int));
                            assert(decreases_to!(exp => args@[i as int]));
                        }
                        match try_typecheck_exp(&args[i], symbols) {
                            Ok(()) => {},
                            Err(err) => {
                                proof {
                                    lemma_args_prefix_error(all, i + 1, m0);
                                }
                                return Err(err);
                            },
                        }
                        i = i + 1;
                    }
                    proof {
                        assert(all.take(all.len() as int) =~= all);
                    }
                    Ok(())
                },
            }
        },
        parser::Expression::Var(identifier) => {
            match symbols.get(identifier.as_str()) {
                Some(symbol) => {
                    if symbol.kind != Type::Int {
                        return Err(TypeError::FunctionUsedAsVariable(identifier.clone()));
                    }
                },
                None => {
                    return Err(TypeError::UndeclaredIdentifier(identifier.clone()));
                },
            }
            Ok(())
        },
        parser::Expression::Unary { operand, .. } => try_typecheck_exp(operand, symbols),
        parser::Expression::Binary { left_expression, right_expression, .. } => {
            try_typecheck_exp(left_expression, symbols)?;
            try_typecheck_exp(right_expression, symbols)
        },
        parser::Expression::Assignment { lvalue, expression } => {
            try_typecheck_exp(lvalue, symbols)?;
            try_typecheck_exp(expression, symbols)
        },
        parser::Expression::Conditional { condition, then, otherwise } => {
            try_typecheck_exp(condition, symbols)?;
            try_typecheck_exp(then, symbols)?;
            try_typecheck_exp(otherwise, symbols)
        },
        parser::Expression::Constant(_) => Ok(()),
    }
}


// The checks below run on programs that type-check. Where a program does not
// (a function declared with another number of parameters or defined twice, a
// name used as what it is not, a call with the wrong number of arguments, an
// undeclared name), the `try_` function of the same name returns the error;
// these require a program that type-checks.

/// The table of what each name was last declared as.
pub fn check_types(program: &parser::Program) -> (result: Symbols)
    requires
        spec_check_functions(program@, Map::empty()) is Ok,
    ensures
        spec_check_functions(program@, Map::empty()) == Ok::<SymbolMap, TypeErrorModel>(result@),
{
    try_check_types(program).unwrap()
}

pub fn typecheck_function_declaration(fd: &parser::FunctionDeclaration, symbols: &mut Symbols)
    requires
        spec_check_function(fd@, old(symbols)@) is Ok,
    ensures
        spec_check_function(fd@, old(symbols)@) == Ok::<SymbolMap, TypeErrorModel>(final(symbols)@),
{
    try_typecheck_function_declaration(fd, symbols).unwrap()
}

pub fn typecheck_block(block: &parser::Block, symbols: &mut Symbols)
    requires
        spec_check_items(block@, old(symbols)@) is Ok,
    ensures
        spec_check_items(block@, old(symbols)@) == Ok::<SymbolMap, TypeErrorModel>(final(symbols)@),
{
    try_typecheck_block(block, symbols).unwrap()
}

pub fn typecheck_block_item(block_item: &parser::BlockItem, symbols: &mut Symbols)
    requires
        spec_check_item(block_item@, old(symbols)@) is Ok,
    ensures
        spec_check_item(block_item@, old(symbols)@) == Ok::<SymbolMap, TypeErrorModel>(final(symbols)@),
{
    try_typecheck_block_item(block_item, symbols).unwrap()
}

pub fn typecheck_statement(statement: &parser::Statement, symbols: &mut Symbols)
    requires
        spec_check_statement(statement@, old(symbols)@) is Ok,
    ensures
        spec_check_statement(statement@, old(symbols)@) == Ok::<SymbolMap, TypeErrorModel>(final(symbols)@),
{
    try_typecheck_statement(statement, symbols).unwrap()
}

pub fn typecheck_for_init(for_init: &parser::ForInit, symbols: &mut Symbols)
    requires
        spec_check_for_init(for_init@, old(symbols)@) is Ok,
    ensures
        spec_check_for_init(for_init@, old(symbols)@) == Ok::<SymbolMap, TypeErrorModel>(final(symbols)@),
{
    try_typecheck_for_init(for_init, symbols).unwrap()
}

pub fn typecheck_declaration(declaration: &parser::Declaration, symbols: &mut Symbols)
    requires
        spec_check_item(BlockItemModel::D(declaration@), old(symbols)@) is Ok,
    ensures
        spec_check_item(BlockItemModel::D(declaration@), old(symbols)@) == Ok::<SymbolMap, TypeErrorModel>(final(symbols)@),
{
    try_typecheck_declaration(declaration, symbols).unwrap()
}

pub fn typecheck_variable_declaration(vd: &parser::VariableDeclaration, symbols: &mut Symbols)
    requires
        spec_check_variable(vd@, old(symbols)@) is Ok,
    ensures
        spec_check_variable(vd@, old(symbols)@) == Ok::<SymbolMap, TypeErrorModel>(final(symbols)@),
{
    try_typecheck_variable_declaration(vd, symbols).unwrap()
}

/// An expression leaves the table as it is.
pub fn typecheck_exp(exp: &parser::Expression, symbols: &mut Symbols)
    requires
        spec_check_exp(exp@, old(symbols)@) is Ok,
    ensures
        final(symbols)@ == old(symbols)@,
{
    try_typecheck_exp(exp, symbols).unwrap()
}

/// Every call in `e` names a function whose parameter count is the number of
/// its arguments, and every variable in `e` names an `int`.
pub open spec fn uses_match_declarations(e: ExpressionModel, m: SymbolMap) -> bool
    decreases e, 1nat,
{
    match e {
        ExpressionModel::FunctionCall { identifier, args } => {
            &&& m.contains_key(identifier)
            &&& m[identifier].kind matches Type::FunType { param_count } && (args.len() < 0x1_0000_0000 ==> param_count
                == args.len())
            &&& all_use_match_declarations(args, m)
        },
        ExpressionModel::Var(name) => m.contains_key(name) && m[name].kind == Type::Int,
        ExpressionModel::Constant(_) => true,
        ExpressionModel::Unary { operand, .. } => uses_match_declarations(*operand, m),
        ExpressionModel::Binary { left_expression, right_expression, .. } => uses_match_declarations(
            *left_expression,
            m,
        ) && uses_match_declarations(*right_expression, m),
        ExpressionModel::Assignment { lvalue, expression } => uses_match_declarations(*lvalue, m)
            && uses_match_declarations(*expression, m),
        ExpressionModel::Conditional { condition, then, otherwise } => uses_match_declarations(*condition, m)
            && uses_match_declarations(*then, m) && uses_match_declarations(*otherwise, m),
    }
}

pub open spec fn all_use_match_declarations(args: Seq<ExpressionModel>, m: SymbolMap) -> bool
    decreases args, 0nat,
{
    forall|i: int| 0 <= i < args.len() ==> uses_match_declarations(#[trigger] args[i], m)
}

/// An expression type-checks only if every call in it passes exactly as many
/// arguments as the called function has parameters, and every variable in it
/// is an `int`.
pub proof fn lemma_checked_uses_match_declarations(e: ExpressionModel, m: SymbolMap)
    requires
        spec_check_exp(e, m) is Ok,
    ensures
        uses_match_declarations(e, m),
    decreases e, 1nat,
{
    match e {
        ExpressionModel::FunctionCall { identifier, args } => {
            lemma_checked_args_match_declarations(args, m);
            if args.len() < 0x1_0000_0000 {
                assert((args.len() as u32) as int == args.len());
            }
        },
        ExpressionModel::Unary { operand, .. } => lemma_checked_uses_match_declarations(*operand, m),
        ExpressionModel::Binary { left_expression, right_expression, .. } => {
            lemma_checked_uses_match_declarations(*left_expression, m);
            lemma_checked_uses_match_declarations(*right_expression, m);
        },
        ExpressionModel::Assignment { lvalue, expression } => {
            lemma_checked_uses_match_declarations(*lvalue, m);
            lemma_checked_uses_match_declarations(*expression, m);
        },
        ExpressionModel::Conditional { condition, then, otherwise } => {
            lemma_checked_uses_match_declarations(*condition, m);
            lemma_checked_uses_match_declarations(*then, m);
            lemma_checked_uses_match_declarations(*otherwise, m);
        },
        _ => {},
    }
}

proof fn lemma_checked_args_match_declarations(args: Seq<ExpressionModel>, m: SymbolMap)
    requires
        spec_check_args(args, m) is Ok,
    ensures
        all_use_match_declarations(args, m),
    decreases args, 0nat,
{
    if args.len() > 0 {
        lemma_checked_args_match_declarations(args.drop_last(), m);
        lemma_checked_uses_match_declarations(args.last(), m);
        assert forall|i: int| 0 <= i < args.len() implies uses_match_declarations(#[trigger] args[i], m) by {
            if i < args.len() - 1 {
                assert(args[i] == args.drop_last()[i]);
            }
        }
    }
}

} // verus!
