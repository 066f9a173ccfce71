//! Gives every local variable a name of its own and checks that each name is
//! declared before use and at most once per scope.
use vstd::prelude::*;
use vstd::string::*;

use crate::parser;
use crate::parser::{
    BlockItemModel, DeclarationModel, ExpressionModel, ForInitModel, FunctionModel, StatementModel,
    VariableModel,
};
use crate::text::{int_decimal, int_to_string};

verus! {

broadcast use vstd::std_specs::vec::group_vec_axioms;

#[derive(Debug, Clone, Copy, PartialEq, Eq, Structural)]
pub enum Linkage {
    ExternalLinkage,
    NoLinkage,
}

#[derive(Debug)]
pub struct IdentifierData {
    pub name: String,
    pub from_current_scope: bool,
    pub linkage: Linkage,
}

/// The identifiers in scope, each with what it resolves to. An entry shadows the
/// entries for the same identifier before it. The entries are a list, not a hash
/// map keyed by name: opening a scope marks every entry as one of an outer scope,
/// and vstd's string-keyed hash map offers no walk over its entries.
#[derive(Debug)]
pub struct IdentifierAllocator {
    pub identifier_count: i32,
    pub map: Vec<(String, IdentifierData)>,
}

/// Why a program does not resolve.
#[derive(Debug)]
pub enum ResolveError {
    /// A second declaration of an identifier in the same scope, where not both are
    /// function declarations.
    DuplicateDeclaration(String),
    UndeclaredVariable(String),
    UndeclaredFunction(String),
    /// The left side of an assignment is not a variable.
    InvalidLvalue(parser::Expression),
    /// A function with a body inside another function.
    NestedFunctionDefinition(String),
    /// More identifiers than the counter that numbers them can count.
    TooManyIdentifiers,
}

pub struct DataModel {
    pub name: Seq<char>,
    pub from_current_scope: bool,
    pub linkage: Linkage,
}

pub struct AllocatorModel {
    pub count: i32,
    pub map: Map<Seq<char>, DataModel>,
}

pub enum ResolveErrorModel {
    DuplicateDeclaration(Seq<char>),
    UndeclaredVariable(Seq<char>),
    UndeclaredFunction(Seq<char>),
    InvalidLvalue(ExpressionModel),
    NestedFunctionDefinition(Seq<char>),
    TooManyIdentifiers,
}

impl View for IdentifierData {
    type V = DataModel;

    open spec fn view(&self) -> DataModel {
        DataModel { name: self.name@, from_current_scope: self.from_current_scope, linkage: self.linkage }
    }
}

pub open spec fn entries_map(entries: Seq<(String, IdentifierData)>) -> Map<Seq<char>, DataModel>
    decreases entries.len(),
{
    if entries.len() == 0 {
        Map::empty()
    } else {
        entries_map(entries.drop_last()).insert(entries.last().0@, entries.last().1@)
    }
}

impl View for IdentifierAllocator {
    type V = AllocatorModel;

    open spec fn view(&self) -> AllocatorModel {
        AllocatorModel { count: self.identifier_count, map: entries_map(self.map@) }
    }
}

impl View for ResolveError {
    type V = ResolveErrorModel;

    open spec fn view(&self) -> ResolveErrorModel {
        match self {
            ResolveError::DuplicateDeclaration(s) => ResolveErrorModel::DuplicateDeclaration(s@),
            ResolveError::UndeclaredVariable(s) => ResolveErrorModel::UndeclaredVariable(s@),
            ResolveError::UndeclaredFunction(s) => ResolveErrorModel::UndeclaredFunction(s@),
            ResolveError::InvalidLvalue(e) => ResolveErrorModel::InvalidLvalue(e@),
            ResolveError::NestedFunctionDefinition(s) => ResolveErrorModel::NestedFunctionDefinition(s@),
            ResolveError::TooManyIdentifiers => ResolveErrorModel::TooManyIdentifiers,
        }
    }
}

/// The unique name of a local: the identifier, a dot and the count.
pub open spec fn numbered_name(identifier: Seq<char>, count: int) -> Seq<char> {
    identifier + seq!['.'] + int_decimal(count)
}

/// The data of an identifier seen from a scope nested in the one that declared it.
pub open spec fn cleared_data(d: DataModel) -> DataModel {
    DataModel { name: d.name, from_current_scope: false, linkage: d.linkage }
}

pub open spec fn clear_scope(m: Map<Seq<char>, DataModel>) -> Map<Seq<char>, DataModel> {
    m.map_values(|d: DataModel| cleared_data(d))
}

/// The scope of a new block: the same identifiers, none of them declared in it yet.
pub open spec fn spec_new_scope(a: AllocatorModel) -> AllocatorModel {
    AllocatorModel { count: a.count, map: clear_scope(a.map) }
}

pub open spec fn spec_allocate(a: AllocatorModel, identifier: Seq<char>, linkage: Linkage) -> Result<
    (Seq<char>, AllocatorModel),
    ResolveErrorModel,
> {
    if a.map.contains_key(identifier) && a.map[identifier].from_current_scope && (
    a.map[identifier].linkage != Linkage::ExternalLinkage || linkage != Linkage::ExternalLinkage) {
        Err(ResolveErrorModel::DuplicateDeclaration(identifier))
    } else if a.count == i32::MAX {
        Err(ResolveErrorModel::TooManyIdentifiers)
    } else {
        let name = if linkage == Linkage::ExternalLinkage {
            identifier
        } else {
            numbered_name(identifier, a.count as int)
        };
        Ok(
            (
                name,
                AllocatorModel {
                    count: (a.count + 1) as i32,
                    map: a.map.insert(identifier, DataModel { name, from_current_scope: true, linkage }),
                },
            ),
        )
    }
}

/// An expression with every identifier replaced by what it resolves to.
pub open spec fn spec_resolve_exp(e: ExpressionModel, a: AllocatorModel) -> Result<ExpressionModel, ResolveErrorModel>
    decreases e,
{
    match e {
        ExpressionModel::Assignment { lvalue, expression } => if (*lvalue) is Var {
            match spec_resolve_exp(*lvalue, a) {
                Ok(l) => match spec_resolve_exp(*expression, a) {
                    Ok(r) => Ok(ExpressionModel::Assignment { lvalue: Box::new(l), expression: Box::new(r) }),
                    Err(err) => Err(err),
                },
                Err(err) => Err(err),
            }
        } else {
            Err(ResolveErrorModel::InvalidLvalue(*lvalue))
        },
        ExpressionModel::Var(v) => if a.map.contains_key(v) {
            Ok(ExpressionModel::Var(a.map[v].name))
        } else {
            Err(ResolveErrorModel::UndeclaredVariable(v))
        },
        ExpressionModel::Unary { operator, operand } => match spec_resolve_exp(*operand, a) {
            Ok(o) => Ok(ExpressionModel::Unary { operator, operand: Box::new(o) }),
            Err(err) => Err(err),
        },
        ExpressionModel::Binary { operator, left_expression, right_expression } => match spec_resolve_exp(
            *left_expression,
            a,
        ) {
            Ok(l) => match spec_resolve_exp(*right_expression, a) {
                Ok(r) => Ok(
                    ExpressionModel::Binary {
                        operator,
                        left_expression: Box::new(l),
                        right_expression: Box::new(r),
                    },
                ),
                Err(err) => Err(err),
            },
            Err(err) => Err(err),
        },
        ExpressionModel::Conditional { condition, then, otherwise } => match spec_resolve_exp(*condition, a) {
            Ok(c) => match spec_resolve_exp(*then, a) {
                Ok(t) => match spec_resolve_exp(*otherwise, a) {
                    Ok(o) => Ok(
                        ExpressionModel::Conditional {
                            condition: Box::new(c),
                            then: Box::new(t),
                            otherwise: Box::new(o),
                        },
                    ),
                    Err(err) => Err(err),
                },
                Err(err) => Err(err),
            },
            Err(err) => Err(err),
        },
        ExpressionModel::FunctionCall { identifier, args } => if a.map.contains_key(identifier) {
            match spec_resolve_exps(args, a) {
                Ok(resolved) => Ok(ExpressionModel::FunctionCall { identifier: a.map[identifier].name, args: resolved }),
                Err(err) => Err(err),
            }
        } else {
            Err(ResolveErrorModel::UndeclaredFunction(identifier))
        },
        ExpressionModel::Constant(c) => Ok(ExpressionModel::Constant(c)),
    }
}

pub open spec fn spec_resolve_exps(es: Seq<ExpressionModel>, a: AllocatorModel) -> Result<Seq<ExpressionModel>, ResolveErrorModel>
    decreases es,
{
    if es.len() == 0 {
        Ok(seq![])
    } else {
        match spec_resolve_exp(es[0], a) {
            Ok(e) => match spec_resolve_exps(es.drop_first(), a) {
                Ok(rest) => Ok(seq![e] + rest),
                Err(err) => Err(err),
            },
            Err(err) => Err(err),
        }
    }
}

pub open spec fn spec_resolve_optional_exp(e: Option<ExpressionModel>, a: AllocatorModel) -> Result<Option<ExpressionModel>, ResolveErrorModel> {
    match e {
        Some(e) => match spec_resolve_exp(e, a) {
            Ok(r) => Ok(Some(r)),
            Err(err) => Err(err),
        },
        None => Ok(None),
    }
}

pub open spec fn spec_resolve_variable(v: VariableModel, a: AllocatorModel) -> Result<(VariableModel, AllocatorModel), ResolveErrorModel> {
    match spec_allocate(a, v.name, Linkage::NoLinkage) {
        Ok((name, a1)) => match spec_resolve_optional_exp(v.init, a1) {
            Ok(init) => Ok((VariableModel { name, init }, a1)),
            Err(err) => Err(err),
        },
        Err(err) => Err(err),
    }
}

/// Allocates the parameters, in order, in the scope of the function body.
pub open spec fn spec_allocate_params(params: Seq<Seq<char>>, a: AllocatorModel) -> Result<(Seq<Seq<char>>, AllocatorModel), ResolveErrorModel>
    decreases params.len(),
{
    if params.len() == 0 {
        Ok((seq![], a))
    } else {
        match spec_allocate(a, params[0], Linkage::NoLinkage) {
            Ok((name, a1)) => match spec_allocate_params(params.drop_first(), a1) {
                Ok((names, a2)) => Ok((seq![name] + names, a2)),
                Err(err) => Err(err),
            },
            Err(err) => Err(err),
        }
    }
}

pub open spec fn spec_resolve_function(f: FunctionModel, a: AllocatorModel) -> Result<(FunctionModel, AllocatorModel), ResolveErrorModel>
    decreases f,
{
    match spec_allocate(a, f.name, Linkage::ExternalLinkage) {
        Ok((name, a1)) => match spec_allocate_params(f.params, spec_new_scope(a1)) {
            Ok((params, inner)) => match f.body {
                Some(body) => match spec_resolve_block(body, inner) {
                    Ok((b, _)) => Ok((FunctionModel { name, params, body: Some(b) }, a1)),
                    Err(err) => Err(err),
                },
                None => Ok((FunctionModel { name, params, body: None }, a1)),
            },
            Err(err) => Err(err),
        },
        Err(err) => Err(err),
    }
}

pub open spec fn spec_resolve_declaration(d: DeclarationModel, a: AllocatorModel) -> Result<(DeclarationModel, AllocatorModel), ResolveErrorModel>
    decreases d,
{
    match d {
        DeclarationModel::FunDecl(f) => if f.body is Some {
            Err(ResolveErrorModel::NestedFunctionDefinition(f.name))
        } else {
            match spec_resolve_function(f, a) {
                Ok((f1, a1)) => Ok((DeclarationModel::FunDecl(f1), a1)),
                Err(err) => Err(err),
            }
        },
        DeclarationModel::VarDecl(v) => match spec_resolve_variable(v, a) {
            Ok((v1, a1)) => Ok((DeclarationModel::VarDecl(v1), a1)),
            Err(err) => Err(err),
        },
    }
}

pub open spec fn spec_resolve_block_item(item: BlockItemModel, a: AllocatorModel) -> Result<(BlockItemModel, AllocatorModel), ResolveErrorModel>
    decreases item,
{
    match item {
        BlockItemModel::S(s) => match spec_resolve_statement(s, a) {
            Ok(s1) => Ok((BlockItemModel::S(s1), a)),
            Err(err) => Err(err),
        },
        BlockItemModel::D(d) => match spec_resolve_declaration(d, a) {
            Ok((d1, a1)) => Ok((BlockItemModel::D(d1), a1)),
            Err(err) => Err(err),
        },
    }
}

/// The items of a block resolved in order, each in the scope that the ones before
/// it leave.
pub open spec fn spec_resolve_block(items: Seq<BlockItemModel>, a: AllocatorModel) -> Result<(Seq<BlockItemModel>, AllocatorModel), ResolveErrorModel>
    decreases items,
{
    if items.len() == 0 {
        Ok((seq![], a))
    } else {
        match spec_resolve_block_item(items[0], a) {
            Ok((item, a1)) => match spec_resolve_block(items.drop_first(), a1) {
                Ok((rest, a2)) => Ok((seq![item] + rest, a2)),
                Err(err) => Err(err),
            },
            Err(err) => Err(err),
        }
    }
}

pub open spec fn spec_resolve_for_init(init: ForInitModel, a: AllocatorModel) -> Result<(ForInitModel, AllocatorModel), ResolveErrorModel> {
    match init {
        ForInitModel::D(v) => match spec_resolve_variable(v, a) {
            Ok((v1, a1)) => Ok((ForInitModel::D(v1), a1)),
            Err(err) => Err(err),
        },
        ForInitModel::E(e) => match spec_resolve_optional_exp(e, a) {
            Ok(e1) => Ok((ForInitModel::E(e1), a)),
            Err(err) => Err(err),
        },
    }
}

/// A statement resolved in scope `a`; statements leave the scope as it was.
pub open spec fn spec_resolve_statement(s: StatementModel, a: AllocatorModel) -> Result<StatementModel, ResolveErrorModel>
    decreases s,
{
    match s {
        StatementModel::Return(e) => match spec_resolve_exp(e, a) {
            Ok(e1) => Ok(StatementModel::Return(e1)),
            Err(err) => Err(err),
        },
        StatementModel::Expression(e) => match spec_resolve_exp(e, a) {
            Ok(e1) => Ok(StatementModel::Expression(e1)),
            Err(err) => Err(err),
        },
        StatementModel::If { condition, then, otherwise } => match spec_resolve_exp(condition, a) {
            Ok(c) => match spec_resolve_statement(*then, a) {
                Ok(t) => match otherwise {
                    Some(o) => match spec_resolve_statement(*o, a) {
                        Ok(o1) => Ok(StatementModel::If { condition: c, then: Box::new(t), otherwise: Some(Box::new(o1)) }),
                        Err(err) => Err(err),
                    },
                    None => Ok(StatementModel::If { condition: c, then: Box::new(t), otherwise: None }),
                },
                Err(err) => Err(err),
            },
            Err(err) => Err(err),
        },
        StatementModel::Compound(items) => match spec_resolve_block(items, spec_new_scope(a)) {
            Ok((items1, _)) => Ok(StatementModel::Compound(items1)),
            Err(err) => Err(err),
        },
        StatementModel::While { condition, body } => match spec_resolve_exp(condition, a) {
            Ok(c) => match spec_resolve_statement(*body, a) {
                Ok(b) => Ok(StatementModel::While { condition: c, body: Box::new(b) }),
                Err(err) => Err(err),
            },
            Err(err) => Err(err),
        },
        StatementModel::DoWhile { condition, body } => match spec_resolve_exp(condition, a) {
            Ok(c) => match spec_resolve_statement(*body, a) {
                Ok(b) => Ok(StatementModel::DoWhile { condition: c, body: Box::new(b) }),
                Err(err) => Err(err),
            },
            Err(err) => Err(err),
        },
        StatementModel::For { init, condition, post, body } => {
            let inner = spec_new_scope(a);
            match spec_resolve_for_init(init, inner) {
                Ok((i1, inner1)) => match spec_resolve_optional_exp(condition, inner1) {
                    Ok(c) => match spec_resolve_optional_exp(post, inner1) {
                        Ok(p) => match spec_resolve_statement(*body, inner1) {
                            Ok(b) => Ok(StatementModel::For { init: i1, condition: c, post: p, body: Box::new(b) }),
                            Err(err) => Err(err),
                        },
                        Err(err) => Err(err),
                    },
                    Err(err) => Err(err),
                },
                Err(err) => Err(err),
            }
        },
        StatementModel::Null => Ok(StatementModel::Null),
        StatementModel::Break => Ok(StatementModel::Break),
        StatementModel::Continue => Ok(StatementModel::Continue),
    }
}

/// The functions of a program resolved in order, with the names that the ones
/// before them declare in scope.
pub open spec fn spec_resolve_functions(fs: Seq<FunctionModel>, a: AllocatorModel) -> Result<Seq<FunctionModel>, ResolveErrorModel>
    decreases fs.len(),
{
    if fs.len() == 0 {
        Ok(seq![])
    } else {
        match spec_resolve_function(fs[0], a) {
            Ok((f, a1)) => match spec_resolve_functions(fs.drop_first(), a1) {
                Ok(rest) => Ok(seq![f] + rest),
                Err(err) => Err(err),
            },
            Err(err) => Err(err),
        }
    }
}

pub open spec fn empty_allocator() -> AllocatorModel {
    AllocatorModel { count: 0, map: Map::empty() }
}

/// `xs` in front of the items that `r` resolved.
pub open spec fn chain<T>(xs: Seq<T>, r: Result<(Seq<T>, AllocatorModel), ResolveErrorModel>) -> Result<
    (Seq<T>, AllocatorModel),
    ResolveErrorModel,
> {
    match r {
        Ok((ys, a)) => Ok((xs + ys, a)),
        Err(e) => Err(e),
    }
}

pub open spec fn chain_list<T>(xs: Seq<T>, r: Result<Seq<T>, ResolveErrorModel>) -> Result<Seq<T>, ResolveErrorModel> {
    match r {
        Ok(ys) => Ok(xs + ys),
        Err(e) => Err(e),
    }
}

pub proof fn lemma_chain_push<T>(xs: Seq<T>, x: T, r: Result<(Seq<T>, AllocatorModel), ResolveErrorModel>)
    ensures
        chain(xs, chain(seq![x], r)) == chain(xs.push(x), r),
        chain(seq![], r) == r,
{
    match r {
        Ok((ys, a)) => {
            assert(xs + (seq![x] + ys) =~= xs.push(x) + ys);
            assert(seq![] + ys =~= ys);
        },
        Err(e) => {},
    }
}

pub proof fn lemma_chain_list_push<T>(xs: Seq<T>, x: T, r: Result<Seq<T>, ResolveErrorModel>)
    ensures
        chain_list(xs, chain_list(seq![x], r)) == chain_list(xs.push(x), r),
        chain_list(seq![], r) == r,
{
    match r {
        Ok(ys) => {
            assert(xs + (seq![x] + ys) =~= xs.push(x) + ys);
            assert(seq![] + ys =~= ys);
        },
        Err(e) => {},
    }
}

/// An identifier that no entry from `k` on names is looked up among the entries
/// before `k`.
proof fn lemma_entries_map_prefix(entries: Seq<(String, IdentifierData)>, k: int, name: Seq<char>)
    requires
        0 <= k <= entries.len(),
        forall|j: int| k <= j < entries.len() ==> #[trigger] entries[j].0@ != name,
    ensures
        entries_map(entries).contains_key(name) == entries_map(entries.take(k)).contains_key(name),
        entries_map(entries).contains_key(name) ==> entries_map(entries)[name] == entries_map(entries.take(k))[name],
    decreases entries.len(),
{
    if k < entries.len() {
        assert forall|j: int| k <= j < entries.drop_last().len() implies #[trigger] entries.drop_last()[j].0@ != name by {
            assert(entries.drop_last()[j] == entries[j]);
        }
        lemma_entries_map_prefix(entries.drop_last(), k, name);
        assert(entries.drop_last().take(k) =~= entries.take(k));
        assert(entries[entries.len() - 1].0@ != name);
    } else {
        assert(entries.take(k) =~= entries);
    }
}

/// Clearing the scope flag of every entry clears it in the map.
proof fn lemma_entries_map_new_scope(entries: Seq<(String, IdentifierData)>, cleared: Seq<(String, IdentifierData)>)
    requires
        cleared.len() == entries.len(),
        forall|j: int|
            0 <= j < entries.len() ==> (#[trigger] cleared[j]).0@ == entries[j].0@ && cleared[j].1@
                == cleared_data(entries[j].1@),
    ensures
        entries_map(cleared) == clear_scope(entries_map(entries)),
    decreases entries.len(),
{
    if entries.len() > 0 {
        let e = entries.drop_last();
        let c = cleared.drop_last();
        assert forall|j: int| 0 <= j < e.len() implies (#[trigger] c[j]).0@ == e[j].0@ && c[j].1@ == cleared_data(
            e[j].1@,
        ) by {
            assert(c[j] == cleared[j]);
            assert(e[j] == entries[j]);
        }
        lemma_entries_map_new_scope(e, c);
        assert(entries_map(cleared) =~= clear_scope(entries_map(entries)));
    } else {
        assert(entries_map(cleared) =~= clear_scope(entries_map(entries)));
    }
}

impl IdentifierAllocator {
    fn new() -> (result: Self)
        ensures
            result@ == empty_allocator(),
    {
        Self { identifier_count: 0, map: Vec::new() }
    }

    fn new_name(&self, var: &str) -> (result: String)
        ensures
            result@ == numbered_name(var@, self.identifier_count as int),
    {
        let mut name = String::from_str(var);
        name.append(".");
        let count = int_to_string(self.identifier_count);
        name.append(count.as_str());
        proof {
            reveal_strlit(".");
        }
        name
    }

    /// The data of an identifier in scope.
    fn get(&self, identifier: &String) -> (result: Option<&IdentifierData>)
        ensures
            match result {
                Some(d) => self@.map.contains_key(identifier@) && d@ == self@.map[identifier@],
                None => !self@.map.contains_key(identifier@),
            },
    {
        let mut i: usize = self.map.len();
        while i > 0
            invariant
                i <= self.map@.len(),
                forall|j: int| i <= j < self.map@.len() ==> #[trigger] self.map@[j].0@ != identifier@,
            decreases i,
        {
            if self.map[i - 1].0 == *identifier {
                proof {
                    lemma_entries_map_prefix(self.map@, i as int, identifier@);
                    assert(self.map@.take(i as int).drop_last() =~= self.map@.take(i - 1));
                }
                return Some(&self.map[i - 1].1);
            }
            i = i - 1;
        }
        proof {
            lemma_entries_map_prefix(self.map@, 0, identifier@);
        }
        None
    }

    fn try_allocate_identifier(&mut self, identifier: String, linkage: Linkage) -> (result: Result<String, ResolveError>)
        ensures
            match result {
                Ok(name) => spec_allocate(old(self)@, identifier@, linkage) == Ok::<
                    (Seq<char>, AllocatorModel),
                    ResolveErrorModel,
                >((name@, final(self)@)),
                Err(e) => spec_allocate(old(self)@, identifier@, linkage) == Err::<
                    (Seq<char>, AllocatorModel),
                    ResolveErrorModel,
                >(e@),
            },
    {
        match self.get(&identifier) {
            Some(v) => {
                if v.from_current_scope && (v.linkage != Linkage::ExternalLinkage || linkage
                    != Linkage::ExternalLinkage) {
                    return Err(ResolveError::DuplicateDeclaration(identifier));
                }
            },
            None => {},
        }
        if self.identifier_count == i32::MAX {
            return Err(ResolveError::TooManyIdentifiers);
        }
        let identifier_name = match linkage {
            Linkage::ExternalLinkage => identifier.clone(),
            Linkage::NoLinkage => self.new_name(identifier.as_str()),
        };
        let identifier_data = IdentifierData {
            name: identifier_name.clone(),
            from_current_scope: true,
            linkage,
        };
        self.map.push((identifier, identifier_data));
        self.identifier_count = self.identifier_count + 1;
        proof {
            assert(self.map@.drop_last() =~= old(self).map@);
        }
        Ok(identifier_name)
    }

    fn new_scope(&mut self) -> (result: Self)
        ensures
            result@ == spec_new_scope(old(self)@),
            *final(self) == *old(self),
    {
        let mut map: Vec<(String, IdentifierData)> = Vec::new();
        let mut i: usize = 0;
        while i < self.map.len()
            invariant
                i <= self.map@.len(),
                map@.len() == i,
                forall|j: int|
                    0 <= j < i ==> (#[trigger] map@[j]).0@ == self.map@[j].0@ && map@[j].1@ == cleared_data(
                        self.map@[j].1@,
                    ),
            decreases self.map@.len() - i,
        {
            let entry = &self.map[i];
            map.push(
                (
                    entry.0.clone(),
                    IdentifierData { name: entry.1.name.clone(), from_current_scope: false, linkage: entry.1.linkage },
                ),
            );
            i = i + 1;
        }
        proof {
            lemma_entries_map_new_scope(self.map@, map@);
        }
        Self { identifier_count: self.identifier_count, map }
    }
}

/// Resolves every identifier of a program, with function names in one scope shared
/// by the whole program.
pub fn try_resolve_identifiers(program: parser::Program) -> (result: Result<parser::Program, ResolveError>)
    ensures
        spec_resolve_functions(program@, empty_allocator()) == match result {
            Ok(p) => Ok(p@),
            Err(e) => Err::<Seq<FunctionModel>, ResolveErrorModel>(e@),
        },
{
    let mut allocator = IdentifierAllocator::new();
    let ghost all = program@;
    let mut functions: Vec<parser::FunctionDeclaration> = Vec::new();
    proof {
        lemma_chain_list_push(seq![], all[0], spec_resolve_functions(all, empty_allocator()));
        assert(all.skip(0) =~= all);
        assert(parser::functions_model(functions@) =~= seq![]);
    }
    for f in it: program.functions
        invariant
            it.seq() == program.functions@,
            all == parser::functions_model(program.functions@),
            functions@.len() == it.index(),
            spec_resolve_functions(all, empty_allocator()) == chain_list(
                parser::functions_model(functions@),
                spec_resolve_functions(all.skip(it.index() as int), allocator@),
            ),
    {
        let ghost k = it.index() as int;
        let ghost rest = all.skip(k);
        proof {
            assert(rest[0] == f@);
            assert(rest.drop_first() =~= all.skip(k + 1));
        }
        let resolved = try_resolve_function_declaration(f, &mut allocator)?;
        proof {
            assert(parser::functions_model(functions@.push(resolved)) =~= parser::functions_model(functions@).push(resolved@));
            lemma_chain_list_push(parser::functions_model(functions@), resolved@, spec_resolve_functions(all.skip(k + 1), allocator@));
        }
        functions.push(resolved);
    }
    proof {
        assert(all.skip(all.len() as int) =~= seq![]);
        assert(parser::functions_model(functions@) + seq![] =~= parser::functions_model(functions@));
    }
    Ok(parser::Program { functions })
}

pub fn try_resolve_block(block: parser::Block, allocator: &mut IdentifierAllocator) -> (result: Result<parser::Block, ResolveError>)
    ensures
        match result {
            Ok(b) => spec_resolve_block(block@, old(allocator)@) == Ok::<
                (Seq<BlockItemModel>, AllocatorModel),
                ResolveErrorModel,
            >((b@, final(allocator)@)),
            Err(e) => spec_resolve_block(block@, old(allocator)@) == Err::<
                (Seq<BlockItemModel>, AllocatorModel),
                ResolveErrorModel,
            >(e@),
        },
    decreases block,
{
    let ghost all = block@;
    let ghost a0 = allocator@;
    let mut items: Vec<parser::BlockItem> = Vec::new();
    proof {
        parser::lemma_block_items_model_index(block.0@);
        assert(all.skip(0) =~= all);
        assert(parser::block_items_model(items@) =~= seq![]);
        lemma_chain_push(seq![], BlockItemModel::S(StatementModel::Null), spec_resolve_block(all, a0));
    }
    let parser::Block(block_items) = block;
    #[verifier::loop_isolation(false)]
    for i in it: block_items
        invariant
            it.seq() == block_items@,
            all == parser::block_items_model(block_items@),
            all.len() == block_items@.len(),
            items@.len() == it.index(),
            spec_resolve_block(all, a0) == chain(
                parser::block_items_model(items@),
                spec_resolve_block(all.skip(it.index() as int), allocator@),
            ),
    {
        let ghost k = it.index() as int;
        let ghost rest = all.skip(k);
        proof {
            assert(rest[0] == i@);
            assert(rest.drop_first() =~= all.skip(k + 1));
            assert(decreases_to!(block_items => block_items@[k]));
        }
        let resolved = try_resolve_block_item(i, allocator)?;
        proof {
            parser::lemma_block_items_model_push(items@, resolved);
            lemma_chain_push(parser::block_items_model(items@), resolved@, spec_resolve_block(all.skip(k + 1), allocator@));
        }
        items.push(resolved);
    }
    proof {
        assert(all.skip(all.len() as int) =~= seq![]);
        assert(parser::block_items_model(items@) + seq![] =~= parser::block_items_model(items@));
    }
    Ok(parser::Block(items))
}

pub fn try_resolve_block_item(item: parser::BlockItem, allocator: &mut IdentifierAllocator) -> (result: Result<parser::BlockItem, ResolveError>)
    ensures
        match result {
            Ok(r) => spec_resolve_block_item(item@, old(allocator)@) == Ok::<
                (BlockItemModel, AllocatorModel),
                ResolveErrorModel,
            >((r@, final(allocator)@)),
            Err(e) => spec_resolve_block_item(item@, old(allocator)@) == Err::<
                (BlockItemModel, AllocatorModel),
                ResolveErrorModel,
            >(e@),
        },
    decreases item,
{
    match item {
        parser::BlockItem::S(statement) => Ok(parser::BlockItem::S(try_resolve_statement(statement, allocator)?)),
        parser::BlockItem::D(declaration) => Ok(parser::BlockItem::D(try_resolve_declaration(declaration, allocator)?)),
    }
}

pub fn try_resolve_declaration(declaration: parser::Declaration, allocator: &mut IdentifierAllocator) -> (result: Result<parser::Declaration, ResolveError>)
    ensures
        match result {
            Ok(r) => spec_resolve_declaration(declaration@, old(allocator)@) == Ok::<
                (DeclarationModel, AllocatorModel),
                ResolveErrorModel,
            >((r@, final(allocator)@)),
            Err(e) => spec_resolve_declaration(declaration@, old(allocator)@) == Err::<
                (DeclarationModel, AllocatorModel),
                ResolveErrorModel,
            >(e@),
        },
    decreases declaration,
{
    match declaration {
        parser::Declaration::FunDecl(fd) => Ok(parser::Declaration::FunDecl(try_resolve_local_function_declaration(fd, allocator)?)),
        parser::Declaration::VarDecl(vd) => Ok(parser::Declaration::VarDecl(try_resolve_variable_declaration(vd, allocator)?)),
    }
}

/// A function declared inside another function: it may not have a body.
pub fn try_resolve_local_function_declaration(
    function_declaration: parser::FunctionDeclaration,
    allocator: &mut IdentifierAllocator,
) -> (result: Result<parser::FunctionDeclaration, ResolveError>)
    ensures
        match result {
            Ok(r) => function_declaration@.body is None && spec_resolve_function(function_declaration@, old(allocator)@) == Ok::<
                (FunctionModel, AllocatorModel),
                ResolveErrorModel,
            >((r@, final(allocator)@)),
            Err(e) => if function_declaration@.body is Some {
                e@ == ResolveErrorModel::NestedFunctionDefinition(function_declaration@.name)
            } else {
                spec_resolve_function(function_declaration@, old(allocator)@) == Err::<
                    (FunctionModel, AllocatorModel),
                    ResolveErrorModel,
                >(e@)
            },
        },
    decreases function_declaration, 1nat,
{
    if function_declaration.body.is_some() {
        return Err(ResolveError::NestedFunctionDefinition(function_declaration.name));
    }
    try_resolve_function_declaration(function_declaration, allocator)
}

pub fn try_resolve_function_declaration(
    function_declaration: parser::FunctionDeclaration,
    allocator: &mut IdentifierAllocator,
) -> (result: Result<parser::FunctionDeclaration, ResolveError>)
    ensures
        match result {
            Ok(r) => spec_resolve_function(function_declaration@, old(allocator)@) == Ok::<
                (FunctionModel, AllocatorModel),
                ResolveErrorModel,
            >((r@, final(allocator)@)),
            Err(e) => spec_resolve_function(function_declaration@, old(allocator)@) == Err::<
                (FunctionModel, AllocatorModel),
                ResolveErrorModel,
            >(e@),
        },
    decreases function_declaration, 0nat,
{
    let ghost f0 = function_declaration@;
    let parser::FunctionDeclaration { name, params, body } = function_declaration;
    let resolved_name = allocator.try_allocate_identifier(name, Linkage::ExternalLinkage)?;
    let mut new_allocator = allocator.new_scope();
    let ghost inner0 = new_allocator@;
    let ghost all = parser::names_model(params@);
    let mut resolved_params: Vec<String> = Vec::new();
    proof {
        assert(all.skip(0) =~= all);
        assert(parser::names_model(resolved_params@) =~= seq![]);
        lemma_chain_push(seq![], seq!['x'], spec_allocate_params(all, inner0));
    }
    #[verifier::loop_isolation(false)]
    for p in it: params
        invariant
            it.seq() == params@,
            all == parser::names_model(params@),
            resolved_params@.len() == it.index(),
            spec_allocate_params(all, inner0) == chain(
                parser::names_model(resolved_params@),
                spec_allocate_params(all.skip(it.index() as int), new_allocator@),
            ),
    {
        let ghost k = it.index() as int;
        proof {
            assert(all.skip(k)[0] == p@);
            assert(all.skip(k).drop_first() =~= all.skip(k + 1));
        }
        let resolved = new_allocator.try_allocate_identifier(p, Linkage::NoLinkage)?;
        proof {
            assert(parser::names_model(resolved_params@.push(resolved)) =~= parser::names_model(resolved_params@).push(resolved@));
            lemma_chain_push(parser::names_model(resolved_params@), resolved@, spec_allocate_params(all.skip(k + 1), new_allocator@));
        }
        resolved_params.push(resolved);
    }
    proof {
        assert(all.skip(all.len() as int) =~= seq![]);
        assert(parser::names_model(resolved_params@) + seq![] =~= parser::names_model(resolved_params@));
    }
    let resolved_body = match body {
        Some(b) => Some(try_resolve_block(b, &mut new_allocator)?),
        None => None,
    };
    Ok(parser::FunctionDeclaration { name: resolved_name, params: resolved_params, body: resolved_body })
}

pub fn try_resolve_variable_declaration(
    variable_declaration: parser::VariableDeclaration,
    allocator: &mut IdentifierAllocator,
) -> (result: Result<parser::VariableDeclaration, ResolveError>)
    ensures
        match result {
            Ok(r) => spec_resolve_variable(variable_declaration@, old(allocator)@) == Ok::<
                (VariableModel, AllocatorModel),
                ResolveErrorModel,
            >((r@, final(allocator)@)),
            Err(e) => spec_resolve_variable(variable_declaration@, old(allocator)@) == Err::<
                (VariableModel, AllocatorModel),
                ResolveErrorModel,
            >(e@),
        },
    decreases variable_declaration,
{
    let parser::VariableDeclaration { name, init } = variable_declaration;
    let resolved_var = allocator.try_allocate_identifier(name, Linkage::NoLinkage)?;
    let resolved_init = try_resolve_optional_exp(init, allocator)?;
    Ok(parser::VariableDeclaration { name: resolved_var, init: resolved_init })
}

pub fn try_resolve_exp(exp: parser::Expression, allocator: &mut IdentifierAllocator) -> (result: Result<parser::Expression, ResolveError>)
    ensures
        *final(allocator) == *old(allocator),
        match result {
            Ok(r) => spec_resolve_exp(exp@, old(allocator)@) == Ok::<ExpressionModel, ResolveErrorModel>(r@),
            Err(e) => spec_resolve_exp(exp@, old(allocator)@) == Err::<ExpressionModel, ResolveErrorModel>(e@),
        },
    decreases exp,
{
    match exp {
        parser::Expression::Assignment { lvalue, expression } => {
            if let parser::Expression::Var(_) = *lvalue {
                return Ok(
                    parser::Expression::Assignment {
                        lvalue: Box::new(try_resolve_exp(*lvalue, allocator)?),
                        expression: Box::new(try_resolve_exp(*expression, allocator)?),
                    },
                );
            }
            Err(ResolveError::InvalidLvalue(*lvalue))
        },
        parser::Expression::Var(v) => match allocator.get(&v) {
            Some(data) => Ok(parser::Expression::Var(data.name.clone())),
            None => Err(ResolveError::UndeclaredVariable(v)),
        },
        parser::Expression::Unary { operator, operand } => Ok(
            parser::Expression::Unary { operator, operand: Box::new(try_resolve_exp(*operand, allocator)?) },
        ),
        parser::Expression::Binary { operator, left_expression, right_expression } => {
            let left = try_resolve_exp(*left_expression, allocator)?;
            let right = try_resolve_exp(*right_expression, allocator)?;
            Ok(
                parser::Expression::Binary {
                    operator,
                    left_expression: Box::new(left),
                    right_expression: Box::new(right),
                },
            )
        },
        parser::Expression::Conditional { condition, then, otherwise } => {
            let c = try_resolve_exp(*condition, allocator)?;
            let t = try_resolve_exp(*then, allocator)?;
            let o = try_resolve_exp(*otherwise, allocator)?;
            Ok(parser::Expression::Conditional { condition: Box::new(c), then: Box::new(t), otherwise: Box::new(o) })
        },
        parser::Expression::FunctionCall { identifier, args } => {
            let new_name = match allocator.get(&identifier) {
                Some(data) => data.name.clone(),
                None => return Err(ResolveError::UndeclaredFunction(identifier)),
            };
            let ghost all = parser::expressions_model(args@);
            let ghost a0 = allocator@;
            let mut new_args: Vec<parser::Expression> = Vec::new();
            proof {
                parser::lemma_expressions_model_index(args@);
                assert(all.skip(0) =~= all);
                assert(parser::expressions_model(new_args@) =~= seq![]);
                lemma_chain_list_push(seq![], ExpressionModel::Constant(0), spec_resolve_exps(all, a0));
            }
            #[verifier::loop_isolation(false)]
            for a in it: args
                invariant
                    it.seq() == args@,
                    all == parser::expressions_model(args@),
                    all.len() == args@.len(),
                    *allocator == *old(allocator),
                    new_args@.len() == it.index(),
                    spec_resolve_exps(all, a0) == chain_list(
                        parser::expressions_model(new_args@),
                        spec_resolve_exps(all.skip(it.index() as int), a0),
                    ),
            {
                let ghost k = it.index() as int;
                proof {
                    assert(all.skip(k)[0] == a@);
                    assert(all.skip(k).drop_first() =~= all.skip(k + 1));
                    assert(decreases_to!(args => args@[k]));
                }
                let resolved = try_resolve_exp(a, allocator)?;
                proof {
                    parser::lemma_expressions_model_push(new_args@, resolved);
                    lemma_chain_list_push(parser::expressions_model(new_args@), resolved@, spec_resolve_exps(all.skip(k + 1), a0));
                }
                new_args.push(resolved);
            }
            proof {
                assert(all.skip(all.len() as int) =~= seq![]);
                assert(parser::expressions_model(new_args@) + seq![] =~= parser::expressions_model(new_args@));
            }
            Ok(parser::Expression::FunctionCall { identifier: new_name, args: new_args })
        },
        parser::Expression::Constant(c) => Ok(parser::Expression::Constant(c)),
    }
}

pub fn try_resolve_statement(statement: parser::Statement, allocator: &mut IdentifierAllocator) -> (result: Result<parser::Statement, ResolveError>)
    ensures
        *final(allocator) == *old(allocator),
        match result {
            Ok(r) => spec_resolve_statement(statement@, old(allocator)@) == Ok::<StatementModel, ResolveErrorModel>(r@),
            Err(e) => spec_resolve_statement(statement@, old(allocator)@) == Err::<StatementModel, ResolveErrorModel>(e@),
        },
    decreases statement,
{
    match statement {
        parser::Statement::Return(exp) => Ok(parser::Statement::Return(try_resolve_exp(exp, allocator)?)),
        parser::Statement::Expression(exp) => Ok(parser::Statement::Expression(try_resolve_exp(exp, allocator)?)),
        parser::Statement::If { condition, then, otherwise } => {
            let c = try_resolve_exp(condition, allocator)?;
            let t = try_resolve_statement(*then, allocator)?;
            let o = match otherwise {
                Some(statement) => Some(Box::new(try_resolve_statement(*statement, allocator)?)),
                None => None,
            };
            Ok(parser::Statement::If { condition: c, then: Box::new(t), otherwise: o })
        },
        parser::Statement::Compound(block) => {
            let mut new_scope_allocator = allocator.new_scope();
            Ok(parser::Statement::Compound(try_resolve_block(block, &mut new_scope_allocator)?))
        },
        parser::Statement::While { condition, body } => {
            let c = try_resolve_exp(condition, allocator)?;
            let b = try_resolve_statement(*body, allocator)?;
            Ok(parser::Statement::While { condition: c, body: Box::new(b) })
        },
        parser::Statement::DoWhile { condition, body } => {
            let c = try_resolve_exp(condition, allocator)?;
            let b = try_resolve_statement(*body, allocator)?;
            Ok(parser::Statement::DoWhile { condition: c, body: Box::new(b) })
        },
        parser::Statement::For { init, condition, post, body } => {
            let mut new_scope_allocator = allocator.new_scope();
            let i = try_resolve_for_init(init, &mut new_scope_allocator)?;
            let c = try_resolve_optional_exp(condition, &mut new_scope_allocator)?;
            let p = try_resolve_optional_exp(post, &mut new_scope_allocator)?;
            let b = try_resolve_statement(*body, &mut new_scope_allocator)?;
            Ok(parser::Statement::For { init: i, condition: c, post: p, body: Box::new(b) })
        },
        parser::Statement::Null => Ok(parser::Statement::Null),
        parser::Statement::Break => Ok(parser::Statement::Break),
        parser::Statement::Continue => Ok(parser::Statement::Continue),
    }
}

fn try_resolve_for_init(init: parser::ForInit, allocator: &mut IdentifierAllocator) -> (result: Result<parser::ForInit, ResolveError>)
    ensures
        match result {
            Ok(r) => spec_resolve_for_init(init@, old(allocator)@) == Ok::<(ForInitModel, AllocatorModel), ResolveErrorModel>(
                (r@, final(allocator)@),
            ),
            Err(e) => spec_resolve_for_init(init@, old(allocator)@) == Err::<(ForInitModel, AllocatorModel), ResolveErrorModel>(e@),
        },
    decreases init,
{
    match init {
        parser::ForInit::D(dec) => Ok(parser::ForInit::D(try_resolve_variable_declaration(dec, allocator)?)),
        parser::ForInit::E(exp) => Ok(parser::ForInit::E(try_resolve_optional_exp(exp, allocator)?)),
    }
}

fn try_resolve_optional_exp(exp: Option<parser::Expression>, allocator: &mut IdentifierAllocator) -> (result: Result<Option<parser::Expression>, ResolveError>)
    ensures
        *final(allocator) == *old(allocator),
        match result {
            Ok(r) => spec_resolve_optional_exp(parser::optional_expression_model(exp), old(allocator)@) == Ok::<
                Option<ExpressionModel>,
                ResolveErrorModel,
            >(parser::optional_expression_model(r)),
            Err(e) => spec_resolve_optional_exp(parser::optional_expression_model(exp), old(allocator)@) == Err::<
                Option<ExpressionModel>,
                ResolveErrorModel,
            >(e@),
        },
    decreases exp,
{
    match exp {
        Some(e) => Ok(Some(try_resolve_exp(e, allocator)?)),
        None => Ok(None),
    }
}

proof fn lemma_allocate_params_len(params: Seq<Seq<char>>, a: AllocatorModel)
    ensures
        spec_allocate_params(params, a) matches Ok((names, _)) ==> names.len() == params.len(),
    decreases params.len(),
{
    if params.len() > 0 {
        match spec_allocate(a, params[0], Linkage::NoLinkage) {
            Ok((name, a1)) => lemma_allocate_params_len(params.drop_first(), a1),
            Err(_) => {},
        }
    }
}

/// Resolution renames only locals: every function keeps its name, its number
/// of parameters and whether it has a body, in the same order.
pub proof fn lemma_resolution_keeps_functions(fs: Seq<FunctionModel>, a: AllocatorModel)
    ensures
        spec_resolve_functions(fs, a) matches Ok(rs) ==> {
            &&& rs.len() == fs.len()
            &&& forall|i: int|
                0 <= i < fs.len() ==> (#[trigger] rs[i]).name == fs[i].name && rs[i].params.len() == fs[i].params.len()
                    && (rs[i].body is Some) == (fs[i].body is Some)
        },
    decreases fs.len(),
{
    if fs.len() > 0 {
        match spec_resolve_function(fs[0], a) {
            Ok((f, a1)) => {
                match spec_allocate(a, fs[0].name, Linkage::ExternalLinkage) {
                    Ok((name, a2)) => lemma_allocate_params_len(fs[0].params, spec_new_scope(a2)),
                    Err(_) => {},
                }
                lemma_resolution_keeps_functions(fs.drop_first(), a1);
                match spec_resolve_functions(fs.drop_first(), a1) {
                    Ok(rest) => {
                        let rs = seq![f] + rest;
                        assert forall|i: int| 0 <= i < fs.len() implies (#[trigger] rs[i]).name == fs[i].name
                            && rs[i].params.len() == fs[i].params.len() && (rs[i].body is Some) == (fs[i].body is Some) by {
                            if i > 0 {
                                assert(rs[i] == rest[i - 1]);
                                assert(fs[i] == fs.drop_first()[i - 1]);
                            }
                        }
                    },
                    Err(_) => {},
                }
            },
            Err(_) => {},
        }
    }
}


// The functions below run resolution on inputs that it accepts. Where an input
// is refused (a duplicate or undeclared name, an assignment to something other
// than a variable, a nested function definition, or more identifiers than the
// counter can number), the `try_` function of the same name returns the error;
// these require that the input is accepted and return the result itself.

impl IdentifierAllocator {
    pub fn allocate_identifier(&mut self, identifier: String, linkage: Linkage) -> (result: String)
        requires
            spec_allocate(old(self)@, identifier@, linkage) is Ok,
        ensures
            spec_allocate(old(self)@, identifier@, linkage) == Ok::<(Seq<char>, AllocatorModel), ResolveErrorModel>(
                (result@, final(self)@),
            ),
    {
        self.try_allocate_identifier(identifier, linkage).unwrap()
    }
}

pub fn resolve_identifiers(program: parser::Program) -> (result: parser::Program)
    requires
        spec_resolve_functions(program@, empty_allocator()) is Ok,
    ensures
        spec_resolve_functions(program@, empty_allocator()) == Ok::<Seq<FunctionModel>, ResolveErrorModel>(result@),
{
    try_resolve_identifiers(program).unwrap()
}

pub fn resolve_block(block: parser::Block, allocator: &mut IdentifierAllocator) -> (result: parser::Block)
    requires
        spec_resolve_block(block@, old(allocator)@) is Ok,
    ensures
        spec_resolve_block(block@, old(allocator)@) == Ok::<(Seq<BlockItemModel>, AllocatorModel), ResolveErrorModel>(
            (result@, final(allocator)@),
        ),
{
    try_resolve_block(block, allocator).unwrap()
}

pub fn resolve_block_item(item: parser::BlockItem, allocator: &mut IdentifierAllocator) -> (result: parser::BlockItem)
    requires
        spec_resolve_block_item(item@, old(allocator)@) is Ok,
    ensures
        spec_resolve_block_item(item@, old(allocator)@) == Ok::<(BlockItemModel, AllocatorModel), ResolveErrorModel>(
            (result@, final(allocator)@),
        ),
{
    try_resolve_block_item(item, allocator).unwrap()
}

pub fn resolve_declaration(declaration: parser::Declaration, allocator: &mut IdentifierAllocator) -> (result: parser::Declaration)
    requires
        spec_resolve_declaration(declaration@, old(allocator)@) is Ok,
    ensures
        spec_resolve_declaration(declaration@, old(allocator)@) == Ok::<(DeclarationModel, AllocatorModel), ResolveErrorModel>(
            (result@, final(allocator)@),
        ),
{
    try_resolve_declaration(declaration, allocator).unwrap()
}

/// A function declaration inside a block: it may not have a body.
pub fn resolve_local_function_declaration(
    function_declaration: parser::FunctionDeclaration,
    allocator: &mut IdentifierAllocator,
) -> (result: parser::FunctionDeclaration)
    requires
        function_declaration@.body is None,
        spec_resolve_function(function_declaration@, old(allocator)@) is Ok,
    ensures
        spec_resolve_function(function_declaration@, old(allocator)@) == Ok::<(FunctionModel, AllocatorModel), ResolveErrorModel>(
            (result@, final(allocator)@),
        ),
{
    try_resolve_local_function_declaration(function_declaration, allocator).unwrap()
}

pub fn resolve_function_declaration(
    function_declaration: parser::FunctionDeclaration,
    allocator: &mut IdentifierAllocator,
) -> (result: parser::FunctionDeclaration)
    requires
        spec_resolve_function(function_declaration@, old(allocator)@) is Ok,
    ensures
        spec_resolve_function(function_declaration@, old(allocator)@) == Ok::<(FunctionModel, AllocatorModel), ResolveErrorModel>(
            (result@, final(allocator)@),
        ),
{
    try_resolve_function_declaration(function_declaration, allocator).unwrap()
}

pub fn resolve_variable_declaration(
    variable_declaration: parser::VariableDeclaration,
    allocator: &mut IdentifierAllocator,
) -> (result: parser::VariableDeclaration)
    requires
        spec_resolve_variable(variable_declaration@, old(allocator)@) is Ok,
    ensures
        spec_resolve_variable(variable_declaration@, old(allocator)@) == Ok::<(VariableModel, AllocatorModel), ResolveErrorModel>(
            (result@, final(allocator)@),
        ),
{
    try_resolve_variable_declaration(variable_declaration, allocator).unwrap()
}

/// An expression with every variable and called function replaced by the name
/// it resolves to; the allocator is left as it was.
pub fn resolve_exp(exp: parser::Expression, allocator: &mut IdentifierAllocator) -> (result: parser::Expression)
    requires
        spec_resolve_exp(exp@, old(allocator)@) is Ok,
    ensures
        *final(allocator) == *old(allocator),
        spec_resolve_exp(exp@, old(allocator)@) == Ok::<ExpressionModel, ResolveErrorModel>(result@),
{
    try_resolve_exp(exp, allocator).unwrap()
}

pub fn resolve_statement(statement: parser::Statement, allocator: &mut IdentifierAllocator) -> (result: parser::Statement)
    requires
        spec_resolve_statement(statement@, old(allocator)@) is Ok,
    ensures
        *final(allocator) == *old(allocator),
        spec_resolve_statement(statement@, old(allocator)@) == Ok::<StatementModel, ResolveErrorModel>(result@),
{
    try_resolve_statement(statement, allocator).unwrap()
}

pub fn resolve_for_init(init: parser::ForInit, allocator: &mut IdentifierAllocator) -> (result: parser::ForInit)
    requires
        spec_resolve_for_init(init@, old(allocator)@) is Ok,
    ensures
        spec_resolve_for_init(init@, old(allocator)@) == Ok::<(ForInitModel, AllocatorModel), ResolveErrorModel>(
            (result@, final(allocator)@),
        ),
{
    try_resolve_for_init(init, allocator).unwrap()
}

pub fn resolve_optional_exp(exp: Option<parser::Expression>, allocator: &mut IdentifierAllocator) -> (result: Option<parser::Expression>)
    requires
        spec_resolve_optional_exp(parser::optional_expression_model(exp), old(allocator)@) is Ok,
    ensures
        *final(allocator) == *old(allocator),
        spec_resolve_optional_exp(parser::optional_expression_model(exp), old(allocator)@) == Ok::<
            Option<ExpressionModel>,
            ResolveErrorModel,
        >(parser::optional_expression_model(result)),
{
    try_resolve_optional_exp(exp, allocator).unwrap()
}

} // verus!
