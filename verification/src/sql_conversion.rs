//! The SQL for a set of columns: a type for every enum column, the table, and
//! a template for inserting a row. Columns appear in the order given.

use vstd::prelude::*;
use vstd::string::*;
use crate::text::{
    decimal_string, decimal_text, join, joined, lowercase, push_string, to_lowercase,
};
use crate::types::{column_records, ColumnMetadata, ColumnRecord, DataType, SqlStatements};

verus! {

/// A text that grows by appending.
pub struct QueryBuilder {
    query: String,
}

impl View for QueryBuilder {
    type V = Seq<char>;

    closed spec fn view(&self) -> Seq<char> {
        self.query@
    }
}

impl QueryBuilder {
    pub fn new(initial: &str) -> (builder: QueryBuilder)
        ensures
            builder@ == initial@,
    {
        QueryBuilder { query: initial.to_string() }
    }

    pub fn push(&mut self, sql: &str)
        ensures
            final(self)@ == old(self)@ + sql@,
    {
        self.query.append(sql);
    }

    pub fn build(self) -> (query: String)
        ensures
            query@ == self@,
    {
        self.query
    }
}

/// The name of the type that an enum column gets.
pub open spec fn enum_type_name(column_name: Seq<char>) -> Seq<char> {
    lowercase(column_name) + "_type"@
}

/// The statement that creates the type of the enum column `column`, with its
/// sample values as the labels.
pub open spec fn enum_type_statement(column: ColumnRecord) -> Seq<char> {
    "CREATE TYPE "@ + enum_type_name(column.name) + " AS ENUM ('"@ + joined(
        column.sample_values,
        "', '"@,
    ) + "');\n"@
}

/// The statements that create the types of the enum columns among `columns`.
pub open spec fn enum_type_statements(columns: Seq<ColumnRecord>) -> Seq<char>
    decreases columns.len(),
{
    if columns.len() == 0 {
        Seq::empty()
    } else if columns.last().data_type == DataType::Enum {
        enum_type_statements(columns.drop_last()) + enum_type_statement(columns.last())
    } else {
        enum_type_statements(columns.drop_last())
    }
}

/// The SQL type of `column`: its own type for an enum column, else the
/// keyword of its data type.
pub open spec fn column_sql_type(column: ColumnRecord) -> Seq<char> {
    if column.data_type == DataType::Enum {
        enum_type_name(column.name)
    } else {
        column.data_type.sql_keyword()
    }
}

/// The line that defines `column` in the table.
pub open spec fn column_definition(column: ColumnRecord) -> Seq<char> {
    "    "@ + column.name + " "@ + column_sql_type(column) + " "@ + if column.nullable {
        "NULL"@
    } else {
        "NOT NULL"@
    }
}

/// The text of `create_table`: the enum types, then the table.
pub open spec fn create_table_text(table_name: Seq<char>, columns: Seq<ColumnRecord>) -> Seq<char> {
    enum_type_statements(columns) + "CREATE TABLE "@ + table_name + " (\n"@ + joined(
        columns.map_values(|column: ColumnRecord| column_definition(column)),
        ",\n"@,
    ) + "\n);"@
}

/// The placeholder of the parameter at position `index`, counted from zero.
pub open spec fn placeholder(index: int) -> Seq<char> {
    "$"@ + decimal_text((index + 1) as nat)
}

/// The placeholders of `count` parameters, numbered from one.
pub open spec fn placeholders(count: nat) -> Seq<Seq<char>> {
    Seq::new(count, |index: int| placeholder(index))
}

/// The text of `insert_template`: the column names, then as many numbered
/// placeholders.
pub open spec fn insert_template_text(table_name: Seq<char>, columns: Seq<ColumnRecord>) -> Seq<
    char,
> {
    "INSERT INTO "@ + table_name + " ("@ + joined(
        columns.map_values(|column: ColumnRecord| column.name),
        ", "@,
    ) + ") VALUES ("@ + joined(placeholders(columns.len()), ", "@) + ");"@
}

fn enum_type_of(column_name: &str) -> (enum_type: String)
    ensures
        enum_type@ == enum_type_name(column_name@),
{
    let mut enum_type = to_lowercase(column_name);
    enum_type.append("_type");
    enum_type
}

fn enum_statement(column: &ColumnMetadata) -> (statement: String)
    ensures
        statement@ == enum_type_statement(column@),
{
    let mut statement = "CREATE TYPE ".to_string();
    let enum_type = enum_type_of(column.name.as_str());
    statement.append(enum_type.as_str());
    statement.append(" AS ENUM ('");
    let values = join(&column.sample_values, "', '");
    statement.append(values.as_str());
    statement.append("');\n");
    statement
}

fn definition_of(column: &ColumnMetadata) -> (definition: String)
    ensures
        definition@ == column_definition(column@),
{
    let mut definition = "    ".to_string();
    definition.append(column.name.as_str());
    definition.append(" ");
    match column.data_type {
        DataType::Enum => {
            let enum_type = enum_type_of(column.name.as_str());
            definition.append(enum_type.as_str());
        },
        _ => {
            definition.append(column.data_type.to_sql_type());
        },
    }
    definition.append(" ");
    if column.nullable {
        definition.append("NULL");
    } else {
        definition.append("NOT NULL");
    }
    definition
}

/// The SQL for `columns` as a table named `table_name`.
pub fn generate_sql_statements(table_name: &str, columns: &Vec<ColumnMetadata>) -> (sql:
    SqlStatements)
    ensures
        sql.create_table@ == create_table_text(table_name@, column_records(columns@)),
        sql.insert_template@ == insert_template_text(table_name@, column_records(columns@)),
{
    let ghost records = column_records(columns@);
    let mut create_builder = QueryBuilder::new("");
    let mut column_defs: Vec<String> = Vec::new();
    let mut names: Vec<String> = Vec::new();
    let mut parameters: Vec<String> = Vec::new();
    let mut i: usize = 0;
    assert(records.take(0) =~= Seq::empty());
    proof {
        reveal_strlit("");
    }
    assert(create_builder@ =~= Seq::empty());
    while i < columns.len()
        invariant
            i <= columns.len(),
            records == column_records(columns@),
            create_builder@ == enum_type_statements(records.take(i as int)),
            column_defs.deep_view() == records.take(i as int).map_values(
                |column: ColumnRecord| column_definition(column),
            ),
            names.deep_view() == records.take(i as int).map_values(
                |column: ColumnRecord| column.name,
            ),
            parameters.deep_view() == placeholders(i as nat),
        decreases columns.len() - i,
    {
        let column = &columns[i];
        let ghost next = records.take(i + 1);
        assert(next.drop_last() =~= records.take(i as int));
        assert(next.last() == column@);
        match column.data_type {
            DataType::Enum => {
                let statement = enum_statement(column);
                create_builder.push(statement.as_str());
            },
            _ => {},
        }
        let definition = definition_of(column);
        push_string(&mut column_defs, definition);
        push_string(&mut names, column.name.clone());
        let mut parameter = "$".to_string();
        let number = decimal_string(i + 1);
        parameter.append(number.as_str());
        push_string(&mut parameters, parameter);
        assert(column_defs.deep_view() =~= next.map_values(
            |column: ColumnRecord| column_definition(column),
        ));
        assert(names.deep_view() =~= next.map_values(|column: ColumnRecord| column.name));
        assert(parameters.deep_view() =~= placeholders((i + 1) as nat));
        i += 1;
    }
    assert(records.take(i as int) =~= records);
    create_builder.push("CREATE TABLE ");
    create_builder.push(table_name);
    create_builder.push(" (\n");
    let definitions = join(&column_defs, ",\n");
    create_builder.push(definitions.as_str());
    create_builder.push("\n);");

    let mut insert_builder = QueryBuilder::new("INSERT INTO ");
    insert_builder.push(table_name);
    insert_builder.push(" (");
    let name_list = join(&names, ", ");
    insert_builder.push(name_list.as_str());
    insert_builder.push(") VALUES (");
    let parameter_list = join(&parameters, ", ");
    insert_builder.push(parameter_list.as_str());
    insert_builder.push(");");

    SqlStatements {
        create_table: create_builder.build(),
        insert_template: insert_builder.build(),
    }
}

/// The template has one placeholder for each column, and they are numbered
/// from one in steps of one.
pub proof fn law_placeholders_are_numbered(count: nat)
    ensures
        placeholders(count).len() == count,
        forall|index: int|
            0 <= index < count ==> #[trigger] placeholders(count)[index] == "$"@ + decimal_text(
                (index + 1) as nat,
            ),
{
}

} // verus!
