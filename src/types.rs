//! The analysed aggregate: source lines, the resolved class name and the
//! blocks found in them, each with the mathematical model it is specified by.
use vstd::prelude::*;

verus! {

/// The role of a block.
#[derive(Clone, Copy, Debug, PartialEq, Eq, Structural)]
pub enum BlockType {
    Namespace,
    Class,
    Constructor,
    Method,
    Context,
    Variable,
    Select,
    If,
    Unknown,
}

/// The HTTP verb an attribute line puts on a method.
#[derive(Clone, Copy, Debug, PartialEq, Eq, Structural)]
pub enum HttpType {
    HttpGet,
    HttpPost,
    HttpPut,
    HttpDelete,
}

/// How many rows a query yields.
#[derive(Clone, Copy, Debug, PartialEq, Eq, Structural)]
pub enum QueryType {
    Many,
    First,
    Unique,
}

/// The surface form of a query.
#[derive(Clone, Copy, Debug, PartialEq, Eq, Structural)]
pub enum LinqSyntax {
    Lambda,
    Query,
    Both,
}

/// Why an analysis stopped, with the offset of the line at fault.
#[derive(Clone, Copy, Debug, PartialEq, Eq, Structural)]
pub enum AnalyzeError {
    /// Opener and closer lines do not pair up.
    StructuralImbalance { line: usize },
    /// A substring the convention demands is missing from the line.
    PatternNotFound { line: usize },
}

/// A method parameter.
#[derive(PartialEq, Clone, Debug)]
pub struct Variable {
    pub name: String,
    pub variable_type: String,
}

/// A table a query reads, under its alias.
#[derive(PartialEq, Debug)]
pub struct Table {
    pub name: String,
    pub shortcut: String,
    pub joined_tables: Vec<Table>,
    pub return_frequency: i32,
}

/// What `derive(Clone)` would write. Verus refuses the derived impl, whose call
/// through `Vec<Table>::clone` cycles back to this impl. The impl makes no
/// claim, so no proof rests on it.
impl Clone for Table {
    #[verifier::external_body]
    fn clone(&self) -> Self {
        Table {
            name: self.name.clone(),
            shortcut: self.shortcut.clone(),
            joined_tables: self.joined_tables.clone(),
            return_frequency: self.return_frequency,
        }
    }
}

/// A filter of a query: the `alias.property` pairs it names and its text.
#[derive(PartialEq, Clone, Debug)]
pub struct WhereClause {
    pub shortcut: Vec<String>,
    pub property: Vec<String>,
    pub value: String,
    pub lambda_varible: Option<String>,
}

/// One projected field of a query.
#[derive(PartialEq, Clone, Debug)]
pub struct ReturnData {
    pub table: String,
    pub property: String,
    pub value: String,
}

/// What a block carries beyond its role.
#[derive(PartialEq, Clone, Debug)]
pub enum BlockDetails {
    ContextBlock { variable: String },
    MethodBlock {
        name: String,
        http_method: Option<HttpType>,
        variables: Vec<Variable>,
        uses_context: bool,
    },
    VariableBlock { name: String, data_type: String },
    SelectBlock {
        query_type: QueryType,
        tables: Vec<Table>,
        where_clauses: Vec<WhereClause>,
        return_data: Vec<ReturnData>,
        syntax: LinqSyntax,
        has_return: bool,
    },
    IfBlock { clause: String, is_else: bool },
}

/// A span of lines between an opener line and its closer line.
#[derive(Clone, Debug)]
pub struct Block {
    pub start: u32,
    pub end: Option<u32>,
    pub block_type: BlockType,
    pub details: Option<BlockDetails>,
}

/// The aggregate that the analysis fills in.
#[derive(Clone)]
pub struct Data {
    pub lines: Vec<String>,
    pub class_name: Option<String>,
    pub blocks: Option<Vec<Block>>,
}

/// A parameter as the contracts see it.
pub struct VariableModel {
    pub name: Seq<char>,
    pub variable_type: Seq<char>,
}

/// A table as the contracts see it; `joined_tables` counts the nested tables.
pub struct TableModel {
    pub name: Seq<char>,
    pub shortcut: Seq<char>,
    pub joined_tables: nat,
    pub return_frequency: int,
}

/// A filter as the contracts see it.
pub struct WhereClauseModel {
    pub shortcut: Seq<Seq<char>>,
    pub property: Seq<Seq<char>>,
    pub value: Seq<char>,
    pub lambda_varible: Option<Seq<char>>,
}

/// A projection as the contracts see it.
pub struct ReturnDataModel {
    pub table: Seq<char>,
    pub property: Seq<char>,
    pub value: Seq<char>,
}

/// Block details as the contracts see them.
pub enum DetailsModel {
    ContextBlock { variable: Seq<char> },
    MethodBlock {
        name: Seq<char>,
        http_method: Option<HttpType>,
        variables: Seq<VariableModel>,
        uses_context: bool,
    },
    VariableBlock { name: Seq<char>, data_type: Seq<char> },
    SelectBlock {
        query_type: QueryType,
        tables: Seq<TableModel>,
        where_clauses: Seq<WhereClauseModel>,
        return_data: Seq<ReturnDataModel>,
        syntax: LinqSyntax,
        has_return: bool,
    },
    IfBlock { clause: Seq<char>, is_else: bool },
}

/// A block as the contracts see it; offsets are line indices.
pub struct BlockModel {
    pub start: int,
    pub end: Option<int>,
    pub block_type: BlockType,
    pub details: Option<DetailsModel>,
}

/// The aggregate as the contracts see it: each line as its characters.
pub struct DataModel {
    pub lines: Seq<Seq<char>>,
    pub class_name: Option<Seq<char>>,
    pub blocks: Option<Seq<BlockModel>>,
}

/// The character sequences of a list of strings.
pub open spec fn strings_view(v: Seq<String>) -> Seq<Seq<char>> {
    v.map_values(|s: String| s@)
}

/// The character sequence of an optional string.
pub open spec fn opt_string_view(o: Option<String>) -> Option<Seq<char>> {
    match o {
        Some(s) => Some(s@),
        None => None,
    }
}

impl View for Variable {
    type V = VariableModel;

    open spec fn view(&self) -> VariableModel {
        VariableModel { name: self.name@, variable_type: self.variable_type@ }
    }
}

impl View for Table {
    type V = TableModel;

    open spec fn view(&self) -> TableModel {
        TableModel {
            name: self.name@,
            shortcut: self.shortcut@,
            joined_tables: self.joined_tables@.len(),
            return_frequency: self.return_frequency as int,
        }
    }
}

impl View for WhereClause {
    type V = WhereClauseModel;

    open spec fn view(&self) -> WhereClauseModel {
        WhereClauseModel {
            shortcut: strings_view(self.shortcut@),
            property: strings_view(self.property@),
            value: self.value@,
            lambda_varible: opt_string_view(self.lambda_varible),
        }
    }
}

impl View for ReturnData {
    type V = ReturnDataModel;

    open spec fn view(&self) -> ReturnDataModel {
        ReturnDataModel { table: self.table@, property: self.property@, value: self.value@ }
    }
}

impl View for BlockDetails {
    type V = DetailsModel;

    open spec fn view(&self) -> DetailsModel {
        match self {
            BlockDetails::ContextBlock { variable } => DetailsModel::ContextBlock {
                variable: variable@,
            },
            BlockDetails::MethodBlock { name, http_method, variables, uses_context } => {
                DetailsModel::MethodBlock {
                    name: name@,
                    http_method: *http_method,
                    variables: variables@.map_values(|v: Variable| v@),
                    uses_context: *uses_context,
                }
            },
            BlockDetails::VariableBlock { name, data_type } => DetailsModel::VariableBlock {
                name: name@,
                data_type: data_type@,
            },
            BlockDetails::SelectBlock {
                query_type,
                tables,
                where_clauses,
                return_data,
                syntax,
                has_return,
            } => DetailsModel::SelectBlock {
                query_type: *query_type,
                tables: tables@.map_values(|t: Table| t@),
                where_clauses: where_clauses@.map_values(|w: WhereClause| w@),
                return_data: return_data@.map_values(|r: ReturnData| r@),
                syntax: *syntax,
                has_return: *has_return,
            },
            BlockDetails::IfBlock { clause, is_else } => DetailsModel::IfBlock {
                clause: clause@,
                is_else: *is_else,
            },
        }
    }
}

impl View for Block {
    type V = BlockModel;

    open spec fn view(&self) -> BlockModel {
        BlockModel {
            start: self.start as int,
            end: match self.end {
                Some(e) => Some(e as int),
                None => None,
            },
            block_type: self.block_type,
            details: match self.details {
                Some(d) => Some(d@),
                None => None,
            },
        }
    }
}

/// The models of a list of blocks.
pub open spec fn blocks_view(v: Seq<Block>) -> Seq<BlockModel> {
    v.map_values(|b: Block| b@)
}

impl View for Data {
    type V = DataModel;

    open spec fn view(&self) -> DataModel {
        DataModel {
            lines: strings_view(self.lines@),
            class_name: opt_string_view(self.class_name),
            blocks: match self.blocks {
                Some(bs) => Some(blocks_view(bs@)),
                None => None,
            },
        }
    }
}

/// An executable result and a mathematical one agree.
pub open spec fn same_data(r: Result<Data, AnalyzeError>, s: Result<DataModel, AnalyzeError>) -> bool {
    match r {
        Ok(d) => s == Ok::<DataModel, AnalyzeError>(d@),
        Err(e) => s == Err::<DataModel, AnalyzeError>(e),
    }
}

/// `b` with role `t`.
pub open spec fn with_type(b: BlockModel, t: BlockType) -> BlockModel {
    BlockModel { start: b.start, end: b.end, block_type: t, details: b.details }
}

/// `b` with details `d`.
pub open spec fn with_details(b: BlockModel, d: DetailsModel) -> BlockModel {
    BlockModel { start: b.start, end: b.end, block_type: b.block_type, details: Some(d) }
}

/// The line just above offset `start`; empty for a block on the first line.
pub open spec fn prev_line(lines: Seq<Seq<char>>, start: int) -> Seq<char> {
    if 1 <= start <= lines.len() {
        lines[start - 1]
    } else {
        Seq::empty()
    }
}

/// The offset of the line just above `start`, or the first line.
pub open spec fn prev_offset(start: int) -> int {
    if start > 0 {
        start - 1
    } else {
        0
    }
}

} // verus!
