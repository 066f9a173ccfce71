//! Gives every loop a label of its own and ties each `break` and `continue` to the
//! label of the innermost loop around it.
use vstd::prelude::*;
use vstd::string::*;

use crate::parser;
use crate::parser::{
    BlockItemModel, DeclarationModel, ExpressionModel, ForInitModel, FunctionModel, StatementModel,
    VariableModel,
};
use crate::text::{int_decimal, int_to_string};

verus! {

broadcast use vstd::std_specs::vec::group_vec_axioms;

type Identifier = String;

/// Numbers the loops of a program.
pub struct LoopLabelGenerator {
    next_loop_id: i32,
}

/// Why the loops of a program cannot be labeled.
#[derive(Debug)]
pub enum LabelError {
    BreakOutsideLoop,
    ContinueOutsideLoop,
    /// More loops than the counter that numbers them can count.
    TooManyLoops,
}

#[derive(Debug)]
pub struct LabeledProgram {
    pub functions: Vec<LabeledFunctionDeclaration>,
}

#[derive(Debug)]
pub enum LabeledDeclaration {
    LabeledFuncDecl(LabeledFunctionDeclaration),
    LabeledVarDecl(parser::VariableDeclaration),
}

#[derive(Debug)]
pub struct LabeledFunctionDeclaration {
    pub name: Identifier,
    pub params: Vec<Identifier>,
    pub body: Option<LabeledBlock>,
}

#[derive(Debug)]
pub struct LabeledBlock(pub Vec<LabeledBlockItem>);

#[derive(Debug)]
pub enum LabeledBlockItem {
    S(LabeledStatement),
    D(LabeledDeclaration),
}

#[derive(Debug)]
pub enum LabeledStatement {
    Return(parser::Expression),
    Expression(parser::Expression),
    If { condition: parser::Expression, then: Box<LabeledStatement>, otherwise: Option<Box<LabeledStatement>> },
    Compound(LabeledBlock),
    Break(Identifier),
    Continue(Identifier),
    While { condition: parser::Expression, body: Box<LabeledStatement>, label: Identifier },
    DoWhile { condition: parser::Expression, body: Box<LabeledStatement>, label: Identifier },
    For {
        init: parser::ForInit,
        condition: Option<parser::Expression>,
        post: Option<parser::Expression>,
        body: Box<LabeledStatement>,
        label: Identifier,
    },
    Null,
}

pub struct LFunctionModel {
    pub name: Seq<char>,
    pub params: Seq<Seq<char>>,
    pub body: Option<Seq<LItemModel>>,
}

pub enum LItemModel {
    S(LStatementModel),
    D(LDeclarationModel),
}

pub enum LDeclarationModel {
    FuncDecl(LFunctionModel),
    VarDecl(VariableModel),
}

pub enum LStatementModel {
    Return(ExpressionModel),
    Expression(ExpressionModel),
    If { condition: ExpressionModel, then: Box<LStatementModel>, otherwise: Option<Box<LStatementModel>> },
    Compound(Seq<LItemModel>),
    Break(Seq<char>),
    Continue(Seq<char>),
    While { condition: ExpressionModel, body: Box<LStatementModel>, label: Seq<char> },
    DoWhile { condition: ExpressionModel, body: Box<LStatementModel>, label: Seq<char> },
    For {
        init: ForInitModel,
        condition: Option<ExpressionModel>,
        post: Option<ExpressionModel>,
        body: Box<LStatementModel>,
        label: Seq<char>,
    },
    Null,
}

pub open spec fn lfunction_model(f: LabeledFunctionDeclaration) -> LFunctionModel
    decreases f,
{
    LFunctionModel {
        name: f.name@,
        params: parser::names_model(f.params@),
        body: match f.body {
            Some(b) => Some(litems_model(b.0@)),
            None => None,
        },
    }
}

pub open spec fn litems_model(items: Seq<LabeledBlockItem>) -> Seq<LItemModel>
    decreases items,
{
    if items.len() == 0 {
        seq![]
    } else {
        litems_model(items.drop_last()).push(litem_model(items.last()))
    }
}

pub open spec fn litem_model(item: LabeledBlockItem) -> LItemModel
    decreases item,
{
    match item {
        LabeledBlockItem::S(s) => LItemModel::S(lstatement_model(s)),
        LabeledBlockItem::D(d) => LItemModel::D(
            match d {
                LabeledDeclaration::LabeledFuncDecl(f) => LDeclarationModel::FuncDecl(lfunction_model(f)),
                LabeledDeclaration::LabeledVarDecl(v) => LDeclarationModel::VarDecl(v@),
            },
        ),
    }
}

pub open spec fn lstatement_model(s: LabeledStatement) -> LStatementModel
    decreases s,
{
    match s {
        LabeledStatement::Return(e) => LStatementModel::Return(e@),
        LabeledStatement::Expression(e) => LStatementModel::Expression(e@),
        LabeledStatement::If { condition, then, otherwise } => LStatementModel::If {
            condition: condition@,
            then: Box::new(lstatement_model(*then)),
            otherwise: match otherwise {
                Some(o) => Some(Box::new(lstatement_model(*o))),
                None => None,
            },
        },
        LabeledStatement::Compound(b) => LStatementModel::Compound(litems_model(b.0@)),
        LabeledStatement::Break(l) => LStatementModel::Break(l@),
        LabeledStatement::Continue(l) => LStatementModel::Continue(l@),
        LabeledStatement::While { condition, body, label } => LStatementModel::While {
            condition: condition@,
            body: Box::new(lstatement_model(*body)),
            label: label@,
        },
        LabeledStatement::DoWhile { condition, body, label } => LStatementModel::DoWhile {
            condition: condition@,
            body: Box::new(lstatement_model(*body)),
            label: label@,
        },
        LabeledStatement::For { init, condition, post, body, label } => LStatementModel::For {
            init: init@,
            condition: parser::optional_expression_model(condition),
            post: parser::optional_expression_model(post),
            body: Box::new(lstatement_model(*body)),
            label: label@,
        },
        LabeledStatement::Null => LStatementModel::Null,
    }
}

impl View for LabeledStatement {
    type V = LStatementModel;

    open spec fn view(&self) -> LStatementModel {
        lstatement_model(*self)
    }
}

impl View for LabeledBlockItem {
    type V = LItemModel;

    open spec fn view(&self) -> LItemModel {
        litem_model(*self)
    }
}

impl View for LabeledBlock {
    type V = Seq<LItemModel>;

    open spec fn view(&self) -> Seq<LItemModel> {
        litems_model(self.0@)
    }
}

impl View for LabeledDeclaration {
    type V = LDeclarationModel;

    open spec fn view(&self) -> LDeclarationModel {
        match self {
            LabeledDeclaration::LabeledFuncDecl(f) => LDeclarationModel::FuncDecl(lfunction_model(*f)),
            LabeledDeclaration::LabeledVarDecl(v) => LDeclarationModel::VarDecl(v@),
        }
    }
}

impl View for LabeledFunctionDeclaration {
    type V = LFunctionModel;

    open spec fn view(&self) -> LFunctionModel {
        lfunction_model(*self)
    }
}

pub open spec fn lfunctions_model(fs: Seq<LabeledFunctionDeclaration>) -> Seq<LFunctionModel> {
    fs.map_values(|f: LabeledFunctionDeclaration| lfunction_model(f))
}

impl View for LabeledProgram {
    type V = Seq<LFunctionModel>;

    open spec fn view(&self) -> Seq<LFunctionModel> {
        lfunctions_model(self.functions@)
    }
}

/// The label of the loop numbered `id`.
pub open spec fn loop_label(id: int) -> Seq<char> {
    "loop."@ + int_decimal(id)
}

/// A label and the next number, or no label when the numbers have run out.
pub open spec fn spec_new_label(next: i32) -> Result<(Seq<char>, i32), LabelError> {
    if next == i32::MAX {
        Err(LabelError::TooManyLoops)
    } else {
        Ok((loop_label(next as int), (next + 1) as i32))
    }
}

pub type Labeled<T> = Result<(T, i32), LabelError>;

pub open spec fn spec_label_function(f: FunctionModel, current: Option<Seq<char>>, next: i32) -> Labeled<LFunctionModel>
    decreases f,
{
    match f.body {
        Some(b) => match spec_label_block(b, current, next) {
            Ok((items, n1)) => Ok((LFunctionModel { name: f.name, params: f.params, body: Some(items) }, n1)),
            Err(e) => Err(e),
        },
        None => Ok((LFunctionModel { name: f.name, params: f.params, body: None }, next)),
    }
}

pub open spec fn spec_label_block(items: Seq<BlockItemModel>, current: Option<Seq<char>>, next: i32) -> Labeled<Seq<LItemModel>>
    decreases items,
{
    if items.len() == 0 {
        Ok((seq![], next))
    } else {
        match spec_label_item(items[0], current, next) {
            Ok((item, n1)) => match spec_label_block(items.drop_first(), current, n1) {
                Ok((rest, n2)) => Ok((seq![item] + rest, n2)),
                Err(e) => Err(e),
            },
            Err(e) => Err(e),
        }
    }
}

pub open spec fn spec_label_item(item: BlockItemModel, current: Option<Seq<char>>, next: i32) -> Labeled<LItemModel>
    decreases item,
{
    match item {
        BlockItemModel::S(s) => match spec_label_statement(s, current, next) {
            Ok((s1, n1)) => Ok((LItemModel::S(s1), n1)),
            Err(e) => Err(e),
        },
        BlockItemModel::D(d) => match d {
            DeclarationModel::FunDecl(f) => match spec_label_function(f, current, next) {
                Ok((f1, n1)) => Ok((LItemModel::D(LDeclarationModel::FuncDecl(f1)), n1)),
                Err(e) => Err(e),
            },
            DeclarationModel::VarDecl(v) => Ok((LItemModel::D(LDeclarationModel::VarDecl(v)), next)),
        },
    }
}

/// A statement with its loops labeled; `current` is the label of the innermost
/// loop around it.
pub open spec fn spec_label_statement(s: StatementModel, current: Option<Seq<char>>, next: i32) -> Labeled<LStatementModel>
    decreases s,
{
    match s {
        StatementModel::Compound(items) => match spec_label_block(items, current, next) {
            Ok((items1, n1)) => Ok((LStatementModel::Compound(items1), n1)),
            Err(e) => Err(e),
        },
        StatementModel::Break => match current {
            Some(label) => Ok((LStatementModel::Break(label), next)),
            None => Err(LabelError::BreakOutsideLoop),
        },
        StatementModel::Continue => match current {
            Some(label) => Ok((LStatementModel::Continue(label), next)),
            None => Err(LabelError::ContinueOutsideLoop),
        },
        StatementModel::While { condition, body } => match spec_new_label(next) {
            Ok((label, n1)) => match spec_label_statement(*body, Some(label), n1) {
                Ok((b, n2)) => Ok((LStatementModel::While { condition, body: Box::new(b), label }, n2)),
                Err(e) => Err(e),
            },
            Err(e) => Err(e),
        },
        StatementModel::DoWhile { condition, body } => match spec_new_label(next) {
            Ok((label, n1)) => match spec_label_statement(*body, Some(label), n1) {
                Ok((b, n2)) => Ok((LStatementModel::DoWhile { condition, body: Box::new(b), label }, n2)),
                Err(e) => Err(e),
            },
            Err(e) => Err(e),
        },
        StatementModel::For { init, condition, post, body } => match spec_new_label(next) {
            Ok((label, n1)) => match spec_label_statement(*body, Some(label), n1) {
                Ok((b, n2)) => Ok((LStatementModel::For { init, condition, post, body: Box::new(b), label }, n2)),
                Err(e) => Err(e),
            },
            Err(e) => Err(e),
        },
        StatementModel::Null => Ok((LStatementModel::Null, next)),
        StatementModel::Return(e) => Ok((LStatementModel::Return(e), next)),
        StatementModel::Expression(e) => Ok((LStatementModel::Expression(e), next)),
        StatementModel::If { condition, then, otherwise } => match spec_label_statement(*then, current, next) {
            Ok((t, n1)) => match otherwise {
                Some(o) => match spec_label_statement(*o, current, n1) {
                    Ok((o1, n2)) => Ok((LStatementModel::If { condition, then: Box::new(t), otherwise: Some(Box::new(o1)) }, n2)),
                    Err(e) => Err(e),
                },
                None => Ok((LStatementModel::If { condition, then: Box::new(t), otherwise: None }, n1)),
            },
            Err(e) => Err(e),
        },
    }
}

pub open spec fn spec_label_functions(fs: Seq<FunctionModel>, next: i32) -> Result<Seq<LFunctionModel>, LabelError>
    decreases fs.len(),
{
    if fs.len() == 0 {
        Ok(seq![])
    } else {
        match spec_label_function(fs[0], None, next) {
            Ok((f, n1)) => match spec_label_functions(fs.drop_first(), n1) {
                Ok(rest) => Ok(seq![f] + rest),
                Err(e) => Err(e),
            },
            Err(e) => Err(e),
        }
    }
}

pub open spec fn lchain<T>(xs: Seq<T>, r: Labeled<Seq<T>>) -> Labeled<Seq<T>> {
    match r {
        Ok((ys, n)) => Ok((xs + ys, n)),
        Err(e) => Err(e),
    }
}

pub open spec fn lchain_list<T>(xs: Seq<T>, r: Result<Seq<T>, LabelError>) -> Result<Seq<T>, LabelError> {
    match r {
        Ok(ys) => Ok(xs + ys),
        Err(e) => Err(e),
    }
}

pub proof fn lemma_lchain_push<T>(xs: Seq<T>, x: T, r: Labeled<Seq<T>>)
    ensures
        lchain(xs, lchain(seq![x], r)) == lchain(xs.push(x), r),
        lchain(seq![], r) == r,
{
    match r {
        Ok((ys, n)) => {
            assert(xs + (seq![x] + ys) =~= xs.push(x) + ys);
            assert(seq![] + ys =~= ys);
        },
        Err(e) => {},
    }
}

pub proof fn lemma_lchain_list_push<T>(xs: Seq<T>, x: T, r: Result<Seq<T>, LabelError>)
    ensures
        lchain_list(xs, lchain_list(seq![x], r)) == lchain_list(xs.push(x), r),
        lchain_list(seq![], r) == r,
{
    match r {
        Ok(ys) => {
            assert(xs + (seq![x] + ys) =~= xs.push(x) + ys);
            assert(seq![] + ys =~= ys);
        },
        Err(e) => {},
    }
}

pub proof fn lemma_litems_model_push(items: Seq<LabeledBlockItem>, item: LabeledBlockItem)
    ensures
        litems_model(items.push(item)) == litems_model(items).push(item@),
{
    assert(items.push(item).drop_last() =~= items);
}

pub proof fn lemma_litems_model_index(items: Seq<LabeledBlockItem>)
    ensures
        litems_model(items).len() == items.len(),
        forall|i: int| 0 <= i < items.len() ==> #[trigger] litems_model(items)[i] == items[i]@,
    decreases items.len(),
{
    if items.len() > 0 {
        lemma_litems_model_index(items.drop_last());
    }
}

pub open spec fn labeled_outcome<T: View>(r: Result<T, LabelError>, next: i32) -> Labeled<T::V> {
    match r {
        Ok(v) => Ok((v@, next)),
        Err(e) => Err(e),
    }
}

impl LoopLabelGenerator {
    /// The number that the next loop will get.
    pub closed spec fn next(&self) -> i32 {
        self.next_loop_id
    }

    fn new() -> (result: Self)
        ensures
            result.next_loop_id == 0,
    {
        Self { next_loop_id: 0 }
    }

    fn try_new_label(&mut self) -> (result: Result<Identifier, LabelError>)
        ensures
            spec_new_label(old(self).next_loop_id) == match result {
                Ok(l) => Ok((l@, final(self).next_loop_id)),
                Err(e) => Err::<(Seq<char>, i32), LabelError>(e),
            },
    {
        if self.next_loop_id == i32::MAX {
            return Err(LabelError::TooManyLoops);
        }
        let mut id = String::from_str("loop.");
        id.append(int_to_string(self.next_loop_id).as_str());
        self.next_loop_id = self.next_loop_id + 1;
        Ok(id)
    }
}

/// Labels the loops of every function of a program, numbering them across the
/// whole program.
pub fn try_label_loops(program: parser::Program) -> (result: Result<LabeledProgram, LabelError>)
    ensures
        spec_label_functions(program@, 0) == match result {
            Ok(p) => Ok(p@),
            Err(e) => Err::<Seq<LFunctionModel>, LabelError>(e),
        },
{
    let mut labeler = LoopLabelGenerator::new();
    let ghost all = program@;
    let mut functions: Vec<LabeledFunctionDeclaration> = Vec::new();
    proof {
        lemma_lchain_list_push(seq![], LFunctionModel { name: seq![], params: seq![], body: None }, spec_label_functions(all, 0));
        assert(all.skip(0) =~= all);
        assert(lfunctions_model(functions@) =~= seq![]);
    }
    for f in it: program.functions
        invariant
            it.seq() == program.functions@,
            all == parser::functions_model(program.functions@),
            functions@.len() == it.index(),
            spec_label_functions(all, 0) == lchain_list(
                lfunctions_model(functions@),
                spec_label_functions(all.skip(it.index() as int), labeler.next_loop_id),
            ),
    {
        let ghost k = it.index() as int;
        proof {
            assert(all.skip(k)[0] == f@);
            assert(all.skip(k).drop_first() =~= all.skip(k + 1));
        }
        let labeled = LabeledFunctionDeclaration::try_from(f, None, &mut labeler)?;
        proof {
            assert(lfunctions_model(functions@.push(labeled)) =~= lfunctions_model(functions@).push(labeled@));
            lemma_lchain_list_push(lfunctions_model(functions@), labeled@, spec_label_functions(all.skip(k + 1), labeler.next_loop_id));
        }
        functions.push(labeled);
    }
    proof {
        assert(all.skip(all.len() as int) =~= seq![]);
        assert(lfunctions_model(functions@) + seq![] =~= lfunctions_model(functions@));
    }
    Ok(LabeledProgram { functions })
}

impl LabeledDeclaration {
    fn try_from(
        declaration: parser::Declaration,
        current_label: Option<Identifier>,
        label_generator: &mut LoopLabelGenerator,
    ) -> (result: Result<Self, LabelError>)
        ensures
            spec_label_item(
                BlockItemModel::D(declaration@),
                option_model(current_label),
                old(label_generator).next_loop_id,
            ) == match result {
                Ok(d) => Ok((LItemModel::D(d@), final(label_generator).next_loop_id)),
                Err(e) => Err::<(LItemModel, i32), LabelError>(e),
            },
        decreases declaration,
    {
        match declaration {
            parser::Declaration::FunDecl(f) => Ok(
                Self::LabeledFuncDecl(LabeledFunctionDeclaration::try_from(f, current_label, label_generator)?),
            ),
            parser::Declaration::VarDecl(vd) => Ok(Self::LabeledVarDecl(vd)),
        }
    }
}

pub open spec fn option_model(label: Option<Identifier>) -> Option<Seq<char>> {
    match label {
        Some(l) => Some(l@),
        None => None,
    }
}

impl LabeledFunctionDeclaration {
    fn try_from(
        function: parser::FunctionDeclaration,
        current_label: Option<Identifier>,
        label_generator: &mut LoopLabelGenerator,
    ) -> (result: Result<Self, LabelError>)
        ensures
            spec_label_function(function@, option_model(current_label), old(label_generator).next_loop_id)
                == labeled_outcome(result, final(label_generator).next_loop_id),
        decreases function,
    {
        let parser::FunctionDeclaration { name, params, body } = function;
        let body = match body {
            Some(b) => Some(LabeledBlock::try_from(b, current_label, label_generator)?),
            None => None,
        };
        Ok(Self { name, params, body })
    }
}

impl LabeledBlock {
    fn try_from(
        block: parser::Block,
        current_label: Option<Identifier>,
        labeler: &mut LoopLabelGenerator,
    ) -> (result: Result<Self, LabelError>)
        ensures
            spec_label_block(block@, option_model(current_label), old(labeler).next_loop_id)
                == labeled_outcome(result, final(labeler).next_loop_id),
        decreases block,
    {
        let ghost all = block@;
        let ghost current = option_model(current_label);
        let ghost n0 = labeler.next_loop_id;
        let mut items: Vec<LabeledBlockItem> = Vec::new();
        proof {
            parser::lemma_block_items_model_index(block.0@);
            assert(all.skip(0) =~= all);
            assert(litems_model(items@) =~= seq![]);
            lemma_lchain_push(seq![], LItemModel::S(LStatementModel::Null), spec_label_block(all, current, n0));
        }
        let parser::Block(block_items) = block;
        #[verifier::loop_isolation(false)]
        for item in it: block_items
            invariant
                it.seq() == block_items@,
                all == parser::block_items_model(block_items@),
                all.len() == block_items@.len(),
                current == option_model(current_label),
                items@.len() == it.index(),
                spec_label_block(all, current, n0) == lchain(
                    litems_model(items@),
                    spec_label_block(all.skip(it.index() as int), current, labeler.next_loop_id),
                ),
        {
            let ghost k = it.index() as int;
            proof {
                assert(all.skip(k)[0] == item@);
                assert(all.skip(k).drop_first() =~= all.skip(k + 1));
                assert(decreases_to!(block_items => block_items@[k]));
            }
            let labeled = LabeledBlockItem::try_from(item, clone_label(&current_label), labeler)?;
            proof {
                lemma_litems_model_push(items@, labeled);
                lemma_lchain_push(litems_model(items@), labeled@, spec_label_block(all.skip(k + 1), current, labeler.next_loop_id));
            }
            items.push(labeled);
        }
        proof {
            assert(all.skip(all.len() as int) =~= seq![]);
            assert(litems_model(items@) + seq![] =~= litems_model(items@));
        }
        Ok(Self(items))
    }
}

fn clone_label(label: &Option<Identifier>) -> (result: Option<Identifier>)
    ensures
        result == *label,
{
    match label {
        Some(l) => Some(l.clone()),
        None => None,
    }
}

impl LabeledBlockItem {
    fn try_from(
        item: parser::BlockItem,
        current_label: Option<Identifier>,
        labeler: &mut LoopLabelGenerator,
    ) -> (result: Result<Self, LabelError>)
        ensures
            spec_label_item(item@, option_model(current_label), old(labeler).next_loop_id)
                == labeled_outcome(result, final(labeler).next_loop_id),
        decreases item,
    {
        match item {
            parser::BlockItem::S(statement) => Ok(Self::S(LabeledStatement::try_from(statement, current_label, labeler)?)),
            parser::BlockItem::D(d) => Ok(Self::D(LabeledDeclaration::try_from(d, current_label, labeler)?)),
        }
    }
}

impl LabeledStatement {
    fn try_from(
        statement: parser::Statement,
        current_label: Option<Identifier>,
        labeler: &mut LoopLabelGenerator,
    ) -> (result: Result<Self, LabelError>)
        ensures
            spec_label_statement(statement@, option_model(current_label), old(labeler).next_loop_id)
                == labeled_outcome(result, final(labeler).next_loop_id),
        decreases statement,
    {
        match statement {
            parser::Statement::Compound(block) => Ok(Self::Compound(LabeledBlock::try_from(block, current_label, labeler)?)),
            parser::Statement::Break => match current_label {
                Some(label) => Ok(Self::Break(label)),
                None => Err(LabelError::BreakOutsideLoop),
            },
            parser::Statement::Continue => match current_label {
                Some(label) => Ok(Self::Continue(label)),
                None => Err(LabelError::ContinueOutsideLoop),
            },
            parser::Statement::While { condition, body } => {
                let label = labeler.try_new_label()?;
                Ok(Self::While { condition, body: Box::new(Self::try_from(*body, Some(label.clone()), labeler)?), label })
            },
            parser::Statement::DoWhile { condition, body } => {
                let label = labeler.try_new_label()?;
                Ok(Self::DoWhile { condition, body: Box::new(Self::try_from(*body, Some(label.clone()), labeler)?), label })
            },
            parser::Statement::For { init, condition, post, body } => {
                let label = labeler.try_new_label()?;
                Ok(
                    Self::For {
                        init,
                        condition,
                        post,
                        body: Box::new(Self::try_from(*body, Some(label.clone()), labeler)?),
                        label,
                    },
                )
            },
            parser::Statement::Null => Ok(Self::Null),
            parser::Statement::Return(expression) => Ok(Self::Return(expression)),
            parser::Statement::Expression(expression) => Ok(Self::Expression(expression)),
            parser::Statement::If { condition, then, otherwise } => {
                let t = Self::try_from(*then, clone_label(&current_label), labeler)?;
                let o = match otherwise {
                    Some(s) => Some(Box::new(Self::try_from(*s, current_label, labeler)?)),
                    None => None,
                };
                Ok(Self::If { condition, then: Box::new(t), otherwise: o })
            },
        }
    }
}

/// The labels of the loops of a statement, each loop before the loops in its
/// body, in the order of the text.
pub open spec fn statement_labels(s: LStatementModel) -> Seq<Seq<char>>
    decreases s,
{
    match s {
        LStatementModel::Compound(items) => items_labels(items),
        LStatementModel::While { body, label, .. } => seq![label] + statement_labels(*body),
        LStatementModel::DoWhile { body, label, .. } => seq![label] + statement_labels(*body),
        LStatementModel::For { body, label, .. } => seq![label] + statement_labels(*body),
        LStatementModel::If { then, otherwise, .. } => statement_labels(*then) + match otherwise {
            Some(o) => statement_labels(*o),
            None => seq![],
        },
        _ => seq![],
    }
}

pub open spec fn items_labels(items: Seq<LItemModel>) -> Seq<Seq<char>>
    decreases items,
{
    if items.len() == 0 {
        seq![]
    } else {
        item_labels(items[0]) + items_labels(items.drop_first())
    }
}

pub open spec fn item_labels(item: LItemModel) -> Seq<Seq<char>>
    decreases item,
{
    match item {
        LItemModel::S(s) => statement_labels(s),
        LItemModel::D(LDeclarationModel::FuncDecl(f)) => function_labels(f),
        LItemModel::D(LDeclarationModel::VarDecl(_)) => seq![],
    }
}

pub open spec fn function_labels(f: LFunctionModel) -> Seq<Seq<char>>
    decreases f,
{
    match f.body {
        Some(items) => items_labels(items),
        None => seq![],
    }
}

/// The labels of the loops of a whole program, function after function.
pub open spec fn program_labels(fs: Seq<LFunctionModel>) -> Seq<Seq<char>>
    decreases fs.len(),
{
    if fs.len() == 0 {
        seq![]
    } else {
        function_labels(fs[0]) + program_labels(fs.drop_first())
    }
}

/// The labels numbered from `from` up to, not including, `to`.
pub open spec fn numbered_labels(from: int, to: int) -> Seq<Seq<char>> {
    Seq::new((to - from) as nat, |k: int| loop_label(from + k))
}

proof fn lemma_numbered_concat(a: int, b: int, c: int)
    requires
        a <= b <= c,
    ensures
        numbered_labels(a, b) + numbered_labels(b, c) == numbered_labels(a, c),
{
    assert(numbered_labels(a, b) + numbered_labels(b, c) =~= numbered_labels(a, c));
}

proof fn lemma_label_statement_labels(s: StatementModel, current: Option<Seq<char>>, next: i32)
    ensures
        spec_label_statement(s, current, next) matches Ok((ls, n1)) ==> next <= n1 && statement_labels(ls)
            == numbered_labels(next as int, n1 as int),
    decreases s,
{
    match s {
        StatementModel::Compound(items) => {
            lemma_label_block_labels(items, current, next);
        },
        StatementModel::While { body, .. } | StatementModel::DoWhile { body, .. } | StatementModel::For { body, .. } => {
            if next < i32::MAX {
                let label = loop_label(next as int);
                lemma_label_statement_labels(*body, Some(label), (next + 1) as i32);
                match spec_label_statement(*body, Some(label), (next + 1) as i32) {
                    Ok((b, n2)) => {
                        assert(seq![label] =~= numbered_labels(next as int, next + 1));
                        lemma_numbered_concat(next as int, next + 1, n2 as int);
                    },
                    Err(_) => {},
                }
            }
        },
        StatementModel::If { then, otherwise, .. } => {
            lemma_label_statement_labels(*then, current, next);
            match spec_label_statement(*then, current, next) {
                Ok((t, n1)) => match otherwise {
                    Some(o) => {
                        lemma_label_statement_labels(*o, current, n1);
                        match spec_label_statement(*o, current, n1) {
                            Ok((o1, n2)) => lemma_numbered_concat(next as int, n1 as int, n2 as int),
                            Err(_) => {},
                        }
                    },
                    None => {
                        assert(statement_labels(t) + seq![] =~= statement_labels(t));
                    },
                },
                Err(_) => {},
            }
        },
        _ => {
            assert(numbered_labels(next as int, next as int) =~= seq![]);
        },
    }
}

proof fn lemma_label_block_labels(items: Seq<BlockItemModel>, current: Option<Seq<char>>, next: i32)
    ensures
        spec_label_block(items, current, next) matches Ok((ls, n1)) ==> next <= n1 && items_labels(ls)
            == numbered_labels(next as int, n1 as int),
    decreases items,
{
    if items.len() == 0 {
        assert(numbered_labels(next as int, next as int) =~= seq![]);
    } else {
        lemma_label_item_labels(items[0], current, next);
        match spec_label_item(items[0], current, next) {
            Ok((item, n1)) => {
                lemma_label_block_labels(items.drop_first(), current, n1);
                match spec_label_block(items.drop_first(), current, n1) {
                    Ok((rest, n2)) => {
                        let ls = seq![item] + rest;
                        assert(ls[0] == item);
                        assert(ls.drop_first() =~= rest);
                        lemma_numbered_concat(next as int, n1 as int, n2 as int);
                    },
                    Err(_) => {},
                }
            },
            Err(_) => {},
        }
    }
}

proof fn lemma_label_item_labels(item: BlockItemModel, current: Option<Seq<char>>, next: i32)
    ensures
        spec_label_item(item, current, next) matches Ok((li, n1)) ==> next <= n1 && item_labels(li)
            == numbered_labels(next as int, n1 as int),
    decreases item,
{
    match item {
        BlockItemModel::S(s) => lemma_label_statement_labels(s, current, next),
        BlockItemModel::D(DeclarationModel::FunDecl(f)) => lemma_label_function_labels(f, current, next),
        BlockItemModel::D(DeclarationModel::VarDecl(_)) => {
            assert(numbered_labels(next as int, next as int) =~= seq![]);
        },
    }
}

proof fn lemma_label_function_labels(f: FunctionModel, current: Option<Seq<char>>, next: i32)
    ensures
        spec_label_function(f, current, next) matches Ok((lf, n1)) ==> next <= n1 && function_labels(lf)
            == numbered_labels(next as int, n1 as int),
    decreases f,
{
    match f.body {
        Some(b) => lemma_label_block_labels(b, current, next),
        None => {
            assert(numbered_labels(next as int, next as int) =~= seq![]);
        },
    }
}

proof fn lemma_label_functions_labels(fs: Seq<FunctionModel>, next: i32)
    ensures
        spec_label_functions(fs, next) matches Ok(lfs) ==> exists|n1: int|
            next <= n1 && #[trigger] program_labels(lfs) == numbered_labels(next as int, n1),
    decreases fs.len(),
{
    if fs.len() == 0 {
        assert(program_labels(seq![]) == numbered_labels(next as int, next as int));
    } else {
        lemma_label_function_labels(fs[0], None, next);
        match spec_label_function(fs[0], None, next) {
            Ok((f, n1)) => {
                lemma_label_functions_labels(fs.drop_first(), n1);
                match spec_label_functions(fs.drop_first(), n1) {
                    Ok(rest) => {
                        let n2 = choose|n2: int| n1 <= n2 && #[trigger] program_labels(rest) == numbered_labels(n1 as int, n2);
                        let lfs = seq![f] + rest;
                        assert(lfs[0] == f);
                        assert(lfs.drop_first() =~= rest);
                        lemma_numbered_concat(next as int, n1 as int, n2);
                        assert(program_labels(lfs) == numbered_labels(next as int, n2));
                    },
                    Err(_) => {},
                }
            },
            Err(_) => {},
        }
    }
}

/// Different loop numbers give different labels.
pub proof fn lemma_loop_label_injective(a: int, b: int)
    requires
        0 <= a,
        0 <= b,
        loop_label(a) == loop_label(b),
    ensures
        a == b,
{
    let prefix = "loop."@;
    assert(loop_label(a).skip(prefix.len() as int) =~= int_decimal(a));
    assert(loop_label(b).skip(prefix.len() as int) =~= int_decimal(b));
    crate::text::lemma_nat_decimal_injective(a as nat, b as nat);
}

/// Every loop of a labeled program has a label of its own: the labels are
/// `loop.0`, `loop.1`, ... in the order of the text, and no two are equal.
pub proof fn lemma_loop_labels_distinct(fs: Seq<FunctionModel>)
    ensures
        spec_label_functions(fs, 0) matches Ok(lfs) ==> {
            &&& exists|n: int| 0 <= n && #[trigger] program_labels(lfs) == numbered_labels(0, n)
            &&& program_labels(lfs).no_duplicates()
        },
{
    lemma_label_functions_labels(fs, 0);
    match spec_label_functions(fs, 0) {
        Ok(lfs) => {
            let n = choose|n: int| 0 <= n && #[trigger] program_labels(lfs) == numbered_labels(0, n);
            let labels = program_labels(lfs);
            assert forall|i: int, j: int| 0 <= i < labels.len() && 0 <= j < labels.len() && i != j implies labels[i]
                != labels[j] by {
                if labels[i] == labels[j] {
                    lemma_loop_label_injective(i, j);
                }
            }
        },
        Err(_) => {},
    }
}

/// The statement with its labels taken off.
pub open spec fn erase_statement(s: LStatementModel) -> StatementModel
    decreases s,
{
    match s {
        LStatementModel::Return(e) => StatementModel::Return(e),
        LStatementModel::Expression(e) => StatementModel::Expression(e),
        LStatementModel::If { condition, then, otherwise } => StatementModel::If {
            condition,
            then: Box::new(erase_statement(*then)),
            otherwise: match otherwise {
                Some(o) => Some(Box::new(erase_statement(*o))),
                None => None,
            },
        },
        LStatementModel::Compound(items) => StatementModel::Compound(erase_items(items)),
        LStatementModel::Break(_) => StatementModel::Break,
        LStatementModel::Continue(_) => StatementModel::Continue,
        LStatementModel::While { condition, body, .. } => StatementModel::While {
            condition,
            body: Box::new(erase_statement(*body)),
        },
        LStatementModel::DoWhile { condition, body, .. } => StatementModel::DoWhile {
            condition,
            body: Box::new(erase_statement(*body)),
        },
        LStatementModel::For { init, condition, post, body, .. } => StatementModel::For {
            init,
            condition,
            post,
            body: Box::new(erase_statement(*body)),
        },
        LStatementModel::Null => StatementModel::Null,
    }
}

pub open spec fn erase_items(items: Seq<LItemModel>) -> Seq<BlockItemModel>
    decreases items,
{
    if items.len() == 0 {
        seq![]
    } else {
        seq![erase_item(items[0])] + erase_items(items.drop_first())
    }
}

pub open spec fn erase_item(item: LItemModel) -> BlockItemModel
    decreases item,
{
    match item {
        LItemModel::S(s) => BlockItemModel::S(erase_statement(s)),
        LItemModel::D(LDeclarationModel::FuncDecl(f)) => BlockItemModel::D(DeclarationModel::FunDecl(erase_function(f))),
        LItemModel::D(LDeclarationModel::VarDecl(v)) => BlockItemModel::D(DeclarationModel::VarDecl(v)),
    }
}

pub open spec fn erase_function(f: LFunctionModel) -> FunctionModel
    decreases f,
{
    FunctionModel {
        name: f.name,
        params: f.params,
        body: match f.body {
            Some(items) => Some(erase_items(items)),
            None => None,
        },
    }
}

/// Every `break` and `continue` of the statement carries the label of the
/// innermost loop around it; `current` is the label of the loop around the
/// statement.
pub open spec fn jumps_to_innermost(s: LStatementModel, current: Option<Seq<char>>) -> bool
    decreases s,
{
    match s {
        LStatementModel::Break(label) => current == Some(label),
        LStatementModel::Continue(label) => current == Some(label),
        LStatementModel::If { then, otherwise, .. } => jumps_to_innermost(*then, current) && match otherwise {
            Some(o) => jumps_to_innermost(*o, current),
            None => true,
        },
        LStatementModel::Compound(items) => items_jump_to_innermost(items, current),
        LStatementModel::While { body, label, .. } => jumps_to_innermost(*body, Some(label)),
        LStatementModel::DoWhile { body, label, .. } => jumps_to_innermost(*body, Some(label)),
        LStatementModel::For { body, label, .. } => jumps_to_innermost(*body, Some(label)),
        _ => true,
    }
}

pub open spec fn items_jump_to_innermost(items: Seq<LItemModel>, current: Option<Seq<char>>) -> bool
    decreases items,
{
    if items.len() == 0 {
        true
    } else {
        item_jumps_to_innermost(items[0], current) && items_jump_to_innermost(items.drop_first(), current)
    }
}

pub open spec fn item_jumps_to_innermost(item: LItemModel, current: Option<Seq<char>>) -> bool
    decreases item,
{
    match item {
        LItemModel::S(s) => jumps_to_innermost(s, current),
        LItemModel::D(LDeclarationModel::FuncDecl(f)) => function_jumps_to_innermost(f, current),
        LItemModel::D(LDeclarationModel::VarDecl(_)) => true,
    }
}

pub open spec fn function_jumps_to_innermost(f: LFunctionModel, current: Option<Seq<char>>) -> bool
    decreases f,
{
    match f.body {
        Some(items) => items_jump_to_innermost(items, current),
        None => true,
    }
}

proof fn lemma_label_statement_shape(s: StatementModel, current: Option<Seq<char>>, next: i32)
    ensures
        spec_label_statement(s, current, next) matches Ok((ls, _)) ==> erase_statement(ls) == s
            && jumps_to_innermost(ls, current),
    decreases s,
{
    match s {
        StatementModel::Compound(items) => lemma_label_block_shape(items, current, next),
        StatementModel::While { body, .. } | StatementModel::DoWhile { body, .. } | StatementModel::For { body, .. } => {
            if next < i32::MAX {
                lemma_label_statement_shape(*body, Some(loop_label(next as int)), (next + 1) as i32);
            }
        },
        StatementModel::If { then, otherwise, .. } => {
            lemma_label_statement_shape(*then, current, next);
            match spec_label_statement(*then, current, next) {
                Ok((t, n1)) => match otherwise {
                    Some(o) => lemma_label_statement_shape(*o, current, n1),
                    None => {},
                },
                Err(_) => {},
            }
        },
        _ => {},
    }
}

proof fn lemma_label_block_shape(items: Seq<BlockItemModel>, current: Option<Seq<char>>, next: i32)
    ensures
        spec_label_block(items, current, next) matches Ok((ls, _)) ==> erase_items(ls) == items
            && items_jump_to_innermost(ls, current),
    decreases items,
{
    if items.len() == 0 {
        assert(erase_items(seq![]) =~= items);
    } else {
        lemma_label_item_shape(items[0], current, next);
        match spec_label_item(items[0], current, next) {
            Ok((item, n1)) => {
                lemma_label_block_shape(items.drop_first(), current, n1);
                match spec_label_block(items.drop_first(), current, n1) {
                    Ok((rest, n2)) => {
                        let ls = seq![item] + rest;
                        assert(ls[0] == item);
                        assert(ls.drop_first() =~= rest);
                        assert(erase_items(ls) =~= items);
                    },
                    Err(_) => {},
                }
            },
            Err(_) => {},
        }
    }
}

proof fn lemma_label_item_shape(item: BlockItemModel, current: Option<Seq<char>>, next: i32)
    ensures
        spec_label_item(item, current, next) matches Ok((li, _)) ==> erase_item(li) == item
            && item_jumps_to_innermost(li, current),
    decreases item,
{
    match item {
        BlockItemModel::S(s) => lemma_label_statement_shape(s, current, next),
        BlockItemModel::D(DeclarationModel::FunDecl(f)) => lemma_label_function_shape(f, current, next),
        BlockItemModel::D(DeclarationModel::VarDecl(_)) => {},
    }
}

proof fn lemma_label_function_shape(f: FunctionModel, current: Option<Seq<char>>, next: i32)
    ensures
        spec_label_function(f, current, next) matches Ok((lf, _)) ==> erase_function(lf) == f
            && function_jumps_to_innermost(lf, current),
    decreases f,
{
    match f.body {
        Some(b) => lemma_label_block_shape(b, current, next),
        None => {},
    }
}

/// Labeling changes nothing but the labels: taking them off gives back the
/// program. And every `break` and `continue` carries the label of the
/// innermost loop around it.
pub proof fn lemma_labeling_only_adds_labels(fs: Seq<FunctionModel>, next: i32)
    ensures
        spec_label_functions(fs, next) matches Ok(lfs) ==> {
            &&& lfs.len() == fs.len()
            &&& forall|i: int|
                0 <= i < fs.len() ==> erase_function(#[trigger] lfs[i]) == fs[i] && function_jumps_to_innermost(
                    lfs[i],
                    None,
                )
        },
    decreases fs.len(),
{
    if fs.len() > 0 {
        lemma_label_function_shape(fs[0], None, next);
        match spec_label_function(fs[0], None, next) {
            Ok((f, n1)) => {
                lemma_labeling_only_adds_labels(fs.drop_first(), n1);
                match spec_label_functions(fs.drop_first(), n1) {
                    Ok(rest) => {
                        let lfs = seq![f] + rest;
                        assert forall|i: int| 0 <= i < fs.len() implies erase_function(#[trigger] lfs[i]) == fs[i]
                            && function_jumps_to_innermost(lfs[i], None) by {
                            if i > 0 {
                                assert(lfs[i] == rest[i - 1]);
                                assert(fs[i] == fs.drop_first()[i - 1]);
                            }
                        }
                    },
                    Err(_) => {},
                }
            },
            Err(_) => {},
        }
    }
}


// The functions below label programs whose every `break` and `continue` lies in
// a loop, and that have fewer loops than the counter can number. For other
// programs the `try_` function of the same name returns the error.

impl LoopLabelGenerator {
    /// The label of the next loop.
    pub fn new_label(&mut self) -> (result: Identifier)
        requires
            old(self).next() < i32::MAX,
        ensures
            spec_new_label(old(self).next()) == Ok::<(Seq<char>, i32), LabelError>((result@, final(self).next())),
    {
        self.try_new_label().unwrap()
    }
}

pub fn label_loops(program: parser::Program) -> (result: LabeledProgram)
    requires
        spec_label_functions(program@, 0) is Ok,
    ensures
        spec_label_functions(program@, 0) == Ok::<Seq<LFunctionModel>, LabelError>(result@),
{
    try_label_loops(program).unwrap()
}

impl LabeledDeclaration {
    pub fn from(
        declaration: parser::Declaration,
        current_label: Option<Identifier>,
        label_generator: &mut LoopLabelGenerator,
    ) -> (result: Self)
        requires
            spec_label_item(BlockItemModel::D(declaration@), option_model(current_label), old(label_generator).next()) is Ok,
        ensures
            spec_label_item(BlockItemModel::D(declaration@), option_model(current_label), old(label_generator).next())
                == Ok::<(LItemModel, i32), LabelError>((LItemModel::D(result@), final(label_generator).next())),
    {
        Self::try_from(declaration, current_label, label_generator).unwrap()
    }
}

impl LabeledFunctionDeclaration {
    pub fn from(
        function: parser::FunctionDeclaration,
        current_label: Option<Identifier>,
        label_generator: &mut LoopLabelGenerator,
    ) -> (result: Self)
        requires
            spec_label_function(function@, option_model(current_label), old(label_generator).next()) is Ok,
        ensures
            spec_label_function(function@, option_model(current_label), old(label_generator).next()) == Ok::<
                (LFunctionModel, i32),
                LabelError,
            >((result@, final(label_generator).next())),
    {
        Self::try_from(function, current_label, label_generator).unwrap()
    }
}

impl LabeledBlock {
    pub fn from(block: parser::Block, current_label: Option<Identifier>, labeler: &mut LoopLabelGenerator) -> (result: Self)
        requires
            spec_label_block(block@, option_model(current_label), old(labeler).next()) is Ok,
        ensures
            spec_label_block(block@, option_model(current_label), old(labeler).next()) == Ok::<
                (Seq<LItemModel>, i32),
                LabelError,
            >((result@, final(labeler).next())),
    {
        Self::try_from(block, current_label, labeler).unwrap()
    }
}

impl LabeledBlockItem {
    pub fn from(item: parser::BlockItem, current_label: Option<Identifier>, labeler: &mut LoopLabelGenerator) -> (result: Self)
        requires
            spec_label_item(item@, option_model(current_label), old(labeler).next()) is Ok,
        ensures
            spec_label_item(item@, option_model(current_label), old(labeler).next()) == Ok::<(LItemModel, i32), LabelError>(
                (result@, final(labeler).next()),
            ),
    {
        Self::try_from(item, current_label, labeler).unwrap()
    }
}

impl LabeledStatement {
    /// A statement with its loops labeled; `current_label` is the label of the
    /// innermost loop around it.
    pub fn from(
        statement: parser::Statement,
        current_label: Option<Identifier>,
        labeler: &mut LoopLabelGenerator,
    ) -> (result: Self)
        requires
            spec_label_statement(statement@, option_model(current_label), old(labeler).next()) is Ok,
        ensures
            spec_label_statement(statement@, option_model(current_label), old(labeler).next()) == Ok::<
                (LStatementModel, i32),
                LabelError,
            >((result@, final(labeler).next())),
    {
        Self::try_from(statement, current_label, labeler).unwrap()
    }
}

} // verus!
