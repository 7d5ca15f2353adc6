//! Composition of a statement into nested SQL text: each join becomes a
//! subquery level that re-projects every column still needed below it.

use vstd::prelude::*;
use vstd::string::*;
use crate::model::{contains_name, JoinType, Select, Statement};
use crate::text::{join_with, joined, repeat_unit, repeated};

verus! {

/// An optional clause on its own line at depth `d`: `label` and its text.
#[verifier::opaque]
pub open spec fn clause_text(label: Seq<char>, v: Option<String>, ind: Seq<char>, d: nat) -> Seq<char> {
    match v {
        Some(x) => "\n"@ + repeated(ind, d) + label + x@,
        None => Seq::empty(),
    }
}

/// The `SELECT ... FROM ...` block of a select with its keyword lines at
/// depth `d` and its columns, one per line, at depth `d + 1`.
#[verifier::opaque]
pub open spec fn select_body(s: Select, ind: Seq<char>, d: nat) -> Seq<char> {
    repeated(ind, d) + "SELECT\n"@ + repeated(ind, d + 1) + joined(s.sqls(), ",\n"@ + repeated(ind, d + 1))
        + "\n"@ + repeated(ind, d) + "FROM "@ + s.table_name@ + clause_text("GROUP BY "@, s.group_by, ind, d)
        + clause_text("WHERE "@, s.where_clause, ind, d)
}

/// A select as a join operand at depth `d`: the bare table name where it
/// projects nothing, else its block in parentheses.
pub open spec fn select_text(s: Select, ind: Seq<char>, d: nat) -> Seq<char> {
    if s.projections@.len() == 0 {
        repeated(ind, d) + s.table_name@
    } else {
        repeated(ind, d) + "(\n"@ + select_body(s, ind, d + 1) + "\n"@ + repeated(ind, d) + ")"@
    }
}

/// A select that stands alone: its operand text without the parentheses'
/// own lines.
pub open spec fn lone_select_text(s: Select, ind: Seq<char>, d: nat) -> Seq<char> {
    if s.projections@.len() == 0 {
        repeated(ind, d) + s.table_name@
    } else {
        select_body(s, ind, d + 1)
    }
}

/// The column names of the selects at `start .. end`, in order.
pub open spec fn names_between(sels: Seq<Select>, start: int, end: int) -> Seq<Seq<char>>
    decreases end - start,
{
    if end <= start {
        Seq::empty()
    } else {
        names_between(sels, start, end - 1) + sels[end - 1].names()
    }
}

/// The names in order, each kept at its first occurrence only.
pub open spec fn distinct_in_order(s: Seq<Seq<char>>) -> Seq<Seq<char>>
    decreases s.len(),
{
    if s.len() == 0 {
        Seq::empty()
    } else {
        let p = distinct_in_order(s.drop_last());
        if p.contains(s.last()) {
            p
        } else {
            p.push(s.last())
        }
    }
}

/// The column list of the level that starts at select `start`: every name
/// that a select from there on projects, once, in order of first occurrence.
pub open spec fn level_columns(sels: Seq<Select>, start: int) -> Seq<Seq<char>> {
    distinct_in_order(names_between(sels, start, sels.len() as int))
}

/// The outer `SELECT <columns> FROM` lines of the level at `start`, depth `d`.
#[verifier::opaque]
pub open spec fn level_header(sels: Seq<Select>, start: int, ind: Seq<char>, d: nat) -> Seq<char> {
    repeated(ind, d) + "SELECT\n"@ + repeated(ind, d + 1) + joined(level_columns(sels, start), ",\n"@ + repeated(ind, d + 1))
        + "\n"@ + repeated(ind, d) + "FROM\n"@
}

/// The line that joins the two operands of a level at depth `d`.
pub open spec fn join_line(t: JoinType, ind: Seq<char>, d: nat) -> Seq<char> {
    "\n"@ + repeated(ind, d + 1) + "ALL "@ + t.keyword() + " JOIN\n"@
}

/// The line that names the join key of a level at depth `d`.
pub open spec fn using_line(key: Seq<char>, ind: Seq<char>, d: nat) -> Seq<char> {
    "\n"@ + repeated(ind, d + 1) + "USING "@ + key
}

/// The text of the chain from select `start` on, at depth `d`: the lone
/// select where no join remains; else the level's header, then the select at
/// `start` and the rest of the chain joined (the rest first in reverse
/// nesting), then the key.
pub open spec fn subquery_text(
    sels: Seq<Select>,
    joins: Seq<(String, JoinType)>,
    start: int,
    ind: Seq<char>,
    d: nat,
    rev: bool,
) -> Seq<char>
    decreases sels.len() - start,
{
    if start >= joins.len() || start + 1 >= sels.len() {
        lone_select_text(sels[start], ind, d)
    } else {
        let popped = select_text(sels[start], ind, d + 1);
        let rest = if start + 2 < sels.len() {
            repeated(ind, d + 1) + "(\n"@ + subquery_text(sels, joins, start + 1, ind, d + 2, rev) + "\n"@
                + repeated(ind, d + 1) + ")"@
        } else {
            select_text(sels[start + 1], ind, d + 1)
        };
        let mid = join_line(joins[start].1, ind, d);
        level_header(sels, start, ind, d) + (if rev {
            rest + mid + popped
        } else {
            popped + mid + rest
        }) + using_line(joins[start].0@, ind, d)
    }
}

/// The whole statement: the chain at depth 0, or at depth 1 inside a
/// `CREATE TABLE <name> AS ( ... )` shell where it names an output table.
pub open spec fn statement_text(st: Statement, ind: Seq<char>, rev: bool) -> Seq<char> {
    match st.create_table {
        Some(t) => "CREATE TABLE "@ + t@ + " AS\n(\n"@ + subquery_text(st.selects@, st.joins@, 0, ind, 1, rev) + "\n)"@,
        None => subquery_text(st.selects@, st.joins@, 0, ind, 0, rev),
    }
}

/// The clause line of `v` under `label` at depth `d`, where `v` is present.
fn clause_sql(label: &str, v: &Option<String>, indent: &str, d: usize) -> (r: String)
    ensures
        r@ == clause_text(label@, *v, indent@, d as nat),
{
    proof {
        reveal(clause_text);
    }
    match v {
        Some(x) => {
            let mut r = String::from_str("\n");
            let pad = repeat_unit(indent, d);
            r.append(pad.as_str());
            r.append(label);
            r.append(x.as_str());
            r
        },
        None => String::new(),
    }
}

/// The `SELECT ... FROM ...` block of a select at depth `d`.
fn select_body_sql(select: &Select, indent: &str, d: usize) -> (r: String)
    requires
        d + 1 <= usize::MAX,
    ensures
        r@ == select_body(*select, indent@, d as nat),
{
    proof {
        reveal(select_body);
    }
    let pad = repeat_unit(indent, d);
    let pad1 = repeat_unit(indent, d + 1);
    let mut sep = String::from_str(",\n");
    sep.append(pad1.as_str());
    let cols = join_with(&select.projections_sql(), sep.as_str());
    let group_by = clause_sql("GROUP BY ", &select.group_by, indent, d);
    let where_clause = clause_sql("WHERE ", &select.where_clause, indent, d);
    let mut r = pad.clone();
    r.append("SELECT\n");
    r.append(pad1.as_str());
    r.append(cols.as_str());
    r.append("\n");
    r.append(pad.as_str());
    r.append("FROM ");
    r.append(select.table_name.as_str());
    r.append(group_by.as_str());
    r.append(where_clause.as_str());
    r
}

/// A select that stands alone at depth `d`.
fn lone_select_sql(select: &Select, indent: &str, d: usize) -> (r: String)
    requires
        d + 2 <= usize::MAX,
    ensures
        r@ == lone_select_text(*select, indent@, d as nat),
{
    if select.projections.len() == 0 {
        let mut r = repeat_unit(indent, d);
        r.append(select.table_name.as_str());
        r
    } else {
        select_body_sql(select, indent, d + 1)
    }
}

impl Statement {
    /// A select as a join operand at depth `indent_level`: its bare table
    /// name where it projects nothing, else its block in parentheses.
    pub fn select_sql(select: &Select, indent: &str, indent_level: usize) -> (r: String)
        requires
            indent_level + 2 <= usize::MAX,
        ensures
            r@ == select_text(*select, indent@, indent_level as nat),
    {
        let mut r = repeat_unit(indent, indent_level);
        if select.projections.len() == 0 {
            r.append(select.table_name.as_str());
        } else {
            let body = select_body_sql(select, indent, indent_level + 1);
            r.append("(\n");
            r.append(body.as_str());
            r.append("\n");
            let pad = repeat_unit(indent, indent_level);
            r.append(pad.as_str());
            r.append(")");
        }
        r
    }
}

/// The column list of the level that starts at select `start`.
fn level_columns_vec(selects: &Vec<Select>, start: usize) -> (r: Vec<String>)
    requires
        start <= selects@.len(),
    ensures
        r.deep_view() == level_columns(selects@, start as int),
{
    let mut cols: Vec<String> = Vec::new();
    let mut i: usize = start;
    while i < selects.len()
        invariant
            start <= i <= selects@.len(),
            cols.deep_view() == distinct_in_order(names_between(selects@, start as int, i as int)),
        decreases selects@.len() - i,
    {
        let names = selects[i].aliased_projections();
        let ghost prefix = names_between(selects@, start as int, i as int);
        let mut k: usize = 0;
        while k < names.len()
            invariant
                k <= names@.len(),
                names.deep_view() == selects@[i as int].names(),
                cols.deep_view() == distinct_in_order(prefix + names.deep_view().take(k as int)),
            decreases names@.len() - k,
        {
            let ghost before = prefix + names.deep_view().take(k as int);
            let ghost after = prefix + names.deep_view().take(k + 1);
            assert(after.drop_last() =~= before);
            assert(after.last() == names@[k as int]@);
            if !contains_name(&cols, &names[k]) {
                let name = names[k].clone();
                cols.push(name);
                assert(cols.deep_view() =~= distinct_in_order(before).push(names@[k as int]@));
            }
            k = k + 1;
        }
        assert(names.deep_view().take(k as int) =~= names.deep_view());
        assert(names_between(selects@, start as int, i + 1) == prefix + selects@[i as int].names());
        i = i + 1;
    }
    cols
}

/// The outer `SELECT <columns> FROM` lines of the level at `start`.
fn level_header_sql(selects: &Vec<Select>, start: usize, indent: &str, d: usize) -> (r: String)
    requires
        start <= selects@.len(),
        d + 1 <= usize::MAX,
    ensures
        r@ == level_header(selects@, start as int, indent@, d as nat),
{
    proof {
        reveal(level_header);
    }
    let pad = repeat_unit(indent, d);
    let pad1 = repeat_unit(indent, d + 1);
    let mut sep = String::from_str(",\n");
    sep.append(pad1.as_str());
    let cols = join_with(&level_columns_vec(selects, start), sep.as_str());
    let mut r = pad.clone();
    r.append("SELECT\n");
    r.append(pad1.as_str());
    r.append(cols.as_str());
    r.append("\n");
    r.append(pad.as_str());
    r.append("FROM\n");
    r
}

/// The `ALL <TYPE> JOIN` line of a level at depth `d`.
fn join_line_sql(t: JoinType, indent: &str, d: usize) -> (r: String)
    requires
        d + 1 <= usize::MAX,
    ensures
        r@ == join_line(t, indent@, d as nat),
{
    let keyword = t.to_string();
    let mut r = String::from_str("\n");
    let pad1 = repeat_unit(indent, d + 1);
    r.append(pad1.as_str());
    r.append("ALL ");
    r.append(keyword.as_str());
    r.append(" JOIN\n");
    r
}

/// The `USING <key>` line of a level at depth `d`.
fn using_line_sql(key: &String, indent: &str, d: usize) -> (r: String)
    requires
        d + 1 <= usize::MAX,
    ensures
        r@ == using_line(key@, indent@, d as nat),
{
    let mut r = String::from_str("\n");
    let pad1 = repeat_unit(indent, d + 1);
    r.append(pad1.as_str());
    r.append("USING ");
    r.append(key.as_str());
    r
}

impl Statement {
    /// The text of the chain from select `start` on, at depth `indent_level`,
    /// each further level nested two steps deeper.
    pub fn sql_subquery(
        selects: &Vec<Select>,
        joins: &Vec<(String, JoinType)>,
        start: usize,
        indent: &str,
        indent_level: usize,
        reverse_nesting: bool,
    ) -> (r: String)
        requires
            joins@.len() + 1 == selects@.len(),
            start < selects@.len(),
            indent_level + 2 * (selects@.len() - start) + 2 <= usize::MAX,
        ensures
            r@ == subquery_text(selects@, joins@, start as int, indent@, indent_level as nat, reverse_nesting),
        decreases selects@.len() - start,
    {
        if start >= joins.len() {
            return lone_select_sql(&selects[start], indent, indent_level);
        }
        let header = level_header_sql(selects, start, indent, indent_level);
        let popped = Self::select_sql(&selects[start], indent, indent_level + 1);
        let rest = if selects.len() - start > 2 {
            let inner = Self::sql_subquery(selects, joins, start + 1, indent, indent_level + 2, reverse_nesting);
            let pad1 = repeat_unit(indent, indent_level + 1);
            let mut rest = pad1.clone();
            rest.append("(\n");
            rest.append(inner.as_str());
            rest.append("\n");
            rest.append(pad1.as_str());
            rest.append(")");
            rest
        } else {
            Self::select_sql(&selects[start + 1], indent, indent_level + 1)
        };
        let mid = join_line_sql(joins[start].1, indent, indent_level);
        let using = using_line_sql(&joins[start].0, indent, indent_level);
        let mut r = header;
        if reverse_nesting {
            r.append(rest.as_str());
            r.append(mid.as_str());
            r.append(popped.as_str());
        } else {
            r.append(popped.as_str());
            r.append(mid.as_str());
            r.append(rest.as_str());
        }
        r.append(using.as_str());
        proof {
            let ghost sp = if reverse_nesting {
                rest@ + mid@ + popped@
            } else {
                popped@ + mid@ + rest@
            };
            assert(r@ =~= header@ + sp + using@);
            assert(subquery_text(selects@, joins@, start as int, indent@, indent_level as nat, reverse_nesting)
                == header@ + sp + using@);
        }
        r
    }

    /// The statement as SQL text: the chain at depth 0, or at depth 1 in a
    /// `CREATE TABLE ... AS` shell where an output table is named.
    pub fn clickhouse_sql(&self, indent: &str, reverse_nesting: bool) -> (r: String)
        requires
            self.wf(),
            2 * self.selects@.len() + 4 <= usize::MAX,
        ensures
            r@ == statement_text(*self, indent@, reverse_nesting),
    {
        match &self.create_table {
            Some(t) => {
                let body = Self::sql_subquery(&self.selects, &self.joins, 0, indent, 1, reverse_nesting);
                let mut r = String::from_str("CREATE TABLE ");
                r.append(t.as_str());
                r.append(" AS\n(\n");
                r.append(body.as_str());
                r.append("\n)");
                r
            },
            None => Self::sql_subquery(&self.selects, &self.joins, 0, indent, 0, reverse_nesting),
        }
    }
}

} // verus!
