//! How many times a keyword occurs in composed text: once per join for
//! `JOIN` and for `USING`, whatever the nesting mode, provided the texts
//! that the statement supplies neither hold the keyword nor end inside it.

use vstd::prelude::*;
use crate::compose::{
    clause_text, distinct_in_order, join_line, level_columns, level_header, lone_select_text, names_between,
    select_body, select_text, statement_text, subquery_text, using_line,
};
use crate::model::{JoinType, ProjectionCol, Select, Statement};
use crate::text::{joined, repeated};

verus! {

/// `s` begins with `p`.
pub open spec fn begins_with(s: Seq<char>, p: Seq<char>) -> bool {
    p.len() <= s.len() && s.take(p.len() as int) == p
}

/// The number of positions of `s` at which `p` begins.
pub open spec fn occurrences(s: Seq<char>, p: Seq<char>) -> nat
    decreases s.len(),
{
    if s.len() == 0 {
        0
    } else {
        (if begins_with(s, p) {
            1nat
        } else {
            0nat
        }) + occurrences(s.drop_first(), p)
    }
}

/// No character of `s` is `c`.
pub open spec fn free_of(s: Seq<char>, c: char) -> bool {
    forall|k: int| 0 <= k < s.len() ==> s[k] != c
}

/// The last `p.len() - 1` characters of `s` are not the first of `p`, so
/// that no occurrence of `p` can start in `s` and end after it.
pub open spec fn ends_clear(s: Seq<char>, p: Seq<char>) -> bool {
    forall|k: int| 0 <= k < s.len() && s.len() - k < p.len() ==> s[k] != p[0]
}

/// `s` holds `p` exactly `n` times, none of them running past its end.
pub open spec fn tidy(s: Seq<char>, p: Seq<char>, n: nat) -> bool {
    occurrences(s, p) == n && ends_clear(s, p)
}

proof fn lemma_occurrences_concat(a: Seq<char>, b: Seq<char>, p: Seq<char>)
    requires
        p.len() > 0,
        ends_clear(a, p),
    ensures
        occurrences(a + b, p) == occurrences(a, p) + occurrences(b, p),
    decreases a.len(),
{
    if a.len() == 0 {
        assert(a + b =~= b);
    } else {
        assert((a + b).drop_first() =~= a.drop_first() + b);
        lemma_occurrences_concat(a.drop_first(), b, p);
        if a.len() >= p.len() {
            assert((a + b).take(p.len() as int) =~= a.take(p.len() as int));
        } else {
            assert(a[0] != p[0]);
            assert((a + b)[0] == a[0]);
            if begins_with(a + b, p) {
                assert((a + b).take(p.len() as int)[0] == p[0]);
            }
        }
    }
}

proof fn lemma_tidy_concat(a: Seq<char>, b: Seq<char>, p: Seq<char>, n: nat, m: nat)
    requires
        p.len() > 0,
        tidy(a, p, n),
        tidy(b, p, m),
    ensures
        tidy(a + b, p, n + m),
{
    lemma_occurrences_concat(a, b, p);
    let s = a + b;
    assert forall|k: int| 0 <= k < s.len() && s.len() - k < p.len() implies s[k] != p[0] by {
        if k < a.len() {
            assert(s[k] == a[k]);
        } else {
            assert(s[k] == b[k - a.len()]);
        }
    }
}

proof fn lemma_free_tidy(s: Seq<char>, p: Seq<char>)
    requires
        p.len() > 0,
        free_of(s, p[0]),
    ensures
        tidy(s, p, 0),
    decreases s.len(),
{
    if s.len() > 0 {
        lemma_free_tidy(s.drop_first(), p);
        if begins_with(s, p) {
            assert(s.take(p.len() as int)[0] == s[0]);
        }
    }
}

proof fn lemma_missing_char(s: Seq<char>, p: Seq<char>, m: int)
    requires
        0 <= m < p.len(),
        free_of(s, p[m]),
    ensures
        occurrences(s, p) == 0,
    decreases s.len(),
{
    if s.len() > 0 {
        lemma_missing_char(s.drop_first(), p, m);
        if begins_with(s, p) {
            assert(s.take(p.len() as int)[m] == s[m]);
        }
    }
}

/// The fixed words of the composed text, other than `GROUP BY`, the join
/// keywords and `USING`, hold neither `J` nor `U`.
proof fn lemma_fixed_words_free(c: char)
    requires
        c == 'J' || c == 'U',
    ensures
        free_of("SELECT\n"@, c),
        free_of("\n"@, c),
        free_of(",\n"@, c),
        free_of("FROM "@, c),
        free_of("FROM\n"@, c),
        free_of("(\n"@, c),
        free_of(")"@, c),
        free_of(" as "@, c),
        free_of("WHERE "@, c),
        free_of("ALL "@, c),
        free_of("CREATE TABLE "@, c),
        free_of(" AS\n(\n"@, c),
        free_of("\n)"@, c),
{
    reveal_strlit("SELECT\n");
    reveal_strlit("\n");
    reveal_strlit(",\n");
    reveal_strlit("FROM ");
    reveal_strlit("FROM\n");
    reveal_strlit("(\n");
    reveal_strlit(")");
    reveal_strlit(" as ");
    reveal_strlit("WHERE ");
    reveal_strlit("ALL ");
    reveal_strlit("CREATE TABLE ");
    reveal_strlit(" AS\n(\n");
    reveal_strlit("\n)");
}

/// The two keywords whose occurrences are counted.
pub open spec fn counted_keyword(p: Seq<char>) -> bool {
    p == "JOIN"@ || p == "USING"@
}

proof fn lemma_group_by_tidy(p: Seq<char>)
    requires
        counted_keyword(p),
    ensures
        tidy("GROUP BY "@, p, 0),
{
    reveal_strlit("GROUP BY ");
    reveal_strlit("JOIN");
    reveal_strlit("USING");
    if p == "JOIN"@ {
        lemma_free_tidy("GROUP BY "@, p);
    } else {
        lemma_missing_char("GROUP BY "@, p, 1);
    }
}

proof fn lemma_join_word_tidy(t: JoinType, p: Seq<char>)
    requires
        counted_keyword(p),
    ensures
        tidy(t.keyword() + " JOIN\n"@, p, if p == "JOIN"@ { 1 } else { 0 }),
{
    reveal_strlit("JOIN");
    reveal_strlit("USING");
    reveal_strlit(" JOIN\n");
    reveal_strlit("RIGHT");
    reveal_strlit("LEFT");
    reveal_strlit("INNER");
    reveal_strlit("OUTER");
    reveal_strlit(" ");
    reveal_strlit("JOIN\n");
    reveal_strlit("OIN\n");
    let w = t.keyword() + " JOIN\n"@;
    if p == "JOIN"@ {
        lemma_free_tidy(t.keyword(), p);
        lemma_free_tidy(" "@, p);
        lemma_free_tidy("OIN\n"@, p);
        assert("JOIN\n"@.drop_first() =~= "OIN\n"@);
        assert("JOIN\n"@.take(4) =~= p);
        assert(occurrences("JOIN\n"@, p) == 1);
        lemma_tidy_concat(" "@, "JOIN\n"@, p, 0, 1);
        assert(" "@ + "JOIN\n"@ =~= " JOIN\n"@);
        lemma_tidy_concat(t.keyword(), " JOIN\n"@, p, 0, 1);
    } else {
        lemma_missing_char(w, p, 1);
        assert forall|k: int| 0 <= k < w.len() && w.len() - k < p.len() implies w[k] != p[0] by {
            assert(w[k] == " JOIN\n"@[k - t.keyword().len()]);
        }
    }
}

proof fn lemma_using_word_tidy(p: Seq<char>)
    requires
        counted_keyword(p),
    ensures
        tidy("USING "@, p, if p == "USING"@ { 1 } else { 0 }),
{
    reveal_strlit("JOIN");
    reveal_strlit("USING");
    reveal_strlit("USING ");
    reveal_strlit("SING ");
    if p == "JOIN"@ {
        lemma_free_tidy("USING "@, p);
    } else {
        lemma_free_tidy("SING "@, p);
        assert("USING "@.drop_first() =~= "SING "@);
        assert("USING "@.take(5) =~= p);
    }
}

/// An optional text, where present, holds no occurrence of `p` and does not
/// end in the middle of one.
pub open spec fn opt_plain(v: Option<String>, p: Seq<char>) -> bool {
    match v {
        Some(x) => tidy(x@, p, 0),
        None => true,
    }
}

/// Neither the column nor the alias of `q` holds or ends inside `p`.
pub open spec fn projection_plain(q: ProjectionCol, p: Seq<char>) -> bool {
    tidy(q.col@, p, 0) && opt_plain(q.alias, p)
}

/// No text of `s` holds or ends inside `p`.
pub open spec fn select_plain(s: Select, p: Seq<char>) -> bool {
    &&& tidy(s.table_name@, p, 0)
    &&& forall|i: int| 0 <= i < s.projections@.len() ==> projection_plain(#[trigger] s.projections@[i], p)
    &&& opt_plain(s.group_by, p)
    &&& opt_plain(s.where_clause, p)
}

/// No text that the statement or the indentation unit supplies holds `p`
/// or ends inside it.
pub open spec fn statement_plain(st: Statement, ind: Seq<char>, p: Seq<char>) -> bool {
    &&& tidy(ind, p, 0)
    &&& opt_plain(st.create_table, p)
    &&& forall|i: int| 0 <= i < st.selects@.len() ==> select_plain(#[trigger] st.selects@[i], p)
    &&& forall|i: int| 0 <= i < st.joins@.len() ==> tidy((#[trigger] st.joins@[i]).0@, p, 0)
}

proof fn lemma_fixed_words_tidy(p: Seq<char>)
    requires
        counted_keyword(p),
    ensures
        tidy("SELECT\n"@, p, 0),
        tidy("\n"@, p, 0),
        tidy(",\n"@, p, 0),
        tidy("FROM "@, p, 0),
        tidy("FROM\n"@, p, 0),
        tidy("(\n"@, p, 0),
        tidy(")"@, p, 0),
        tidy(" as "@, p, 0),
        tidy("WHERE "@, p, 0),
        tidy("ALL "@, p, 0),
        tidy("CREATE TABLE "@, p, 0),
        tidy(" AS\n(\n"@, p, 0),
        tidy("\n)"@, p, 0),
{
    lemma_keyword_facts(p);
    lemma_fixed_words_free(p[0]);
    lemma_free_tidy("SELECT\n"@, p);
    lemma_free_tidy("\n"@, p);
    lemma_free_tidy(",\n"@, p);
    lemma_free_tidy("FROM "@, p);
    lemma_free_tidy("FROM\n"@, p);
    lemma_free_tidy("(\n"@, p);
    lemma_free_tidy(")"@, p);
    lemma_free_tidy(" as "@, p);
    lemma_free_tidy("WHERE "@, p);
    lemma_free_tidy("ALL "@, p);
    lemma_free_tidy("CREATE TABLE "@, p);
    lemma_free_tidy(" AS\n(\n"@, p);
    lemma_free_tidy("\n)"@, p);
}

proof fn lemma_repeated_tidy(unit: Seq<char>, n: nat, p: Seq<char>)
    requires
        p.len() > 0,
        tidy(unit, p, 0),
    ensures
        tidy(repeated(unit, n), p, 0),
    decreases n,
{
    if n > 0 {
        lemma_repeated_tidy(unit, (n - 1) as nat, p);
        lemma_tidy_concat(repeated(unit, (n - 1) as nat), unit, p, 0, 0);
    }
}

proof fn lemma_joined_tidy(items: Seq<Seq<char>>, sep: Seq<char>, p: Seq<char>)
    requires
        p.len() > 0,
        tidy(sep, p, 0),
        forall|i: int| 0 <= i < items.len() ==> tidy(#[trigger] items[i], p, 0),
    ensures
        tidy(joined(items, sep), p, 0),
    decreases items.len(),
{
    if items.len() > 1 {
        let t = items.drop_last();
        assert forall|i: int| 0 <= i < t.len() implies tidy(#[trigger] t[i], p, 0) by {
            assert(t[i] == items[i]);
        }
        lemma_joined_tidy(t, sep, p);
        lemma_tidy_concat(joined(t, sep), sep, p, 0, 0);
        lemma_tidy_concat(joined(t, sep) + sep, items.last(), p, 0, 0);
    } else if items.len() == 1 {
        assert(tidy(items[0], p, 0));
    }
}

proof fn lemma_keyword_facts(p: Seq<char>)
    requires
        counted_keyword(p),
    ensures
        p.len() > 0,
        p[0] == 'J' || p[0] == 'U',
        join_line_count(p) + using_line_count(p) == 1,
{
    reveal_strlit("JOIN");
    reveal_strlit("USING");
    assert("JOIN"@.len() != "USING"@.len());
}

proof fn lemma_clause_tidy(label: Seq<char>, v: Option<String>, ind: Seq<char>, d: nat, p: Seq<char>)
    requires
        counted_keyword(p),
        tidy(ind, p, 0),
        opt_plain(v, p),
        label == "GROUP BY "@ || label == "WHERE "@,
    ensures
        tidy(clause_text(label, v, ind, d), p, 0),
{
    reveal(clause_text);
    lemma_keyword_facts(p);
    if let Some(x) = v {
        lemma_fixed_words_tidy(p);
        lemma_repeated_tidy(ind, d, p);
        lemma_tidy_concat("\n"@, repeated(ind, d), p, 0, 0);
        if label == "GROUP BY "@ {
            lemma_group_by_tidy(p);
        }
        lemma_tidy_concat("\n"@ + repeated(ind, d), label, p, 0, 0);
        lemma_tidy_concat("\n"@ + repeated(ind, d) + label, x@, p, 0, 0);
    }
}

proof fn lemma_body_tidy(s: Select, ind: Seq<char>, d: nat, p: Seq<char>)
    requires
        counted_keyword(p),
        tidy(ind, p, 0),
        select_plain(s, p),
    ensures
        tidy(select_body(s, ind, d), p, 0),
{
    reveal(select_body);
    lemma_keyword_facts(p);
    lemma_fixed_words_tidy(p);
    lemma_repeated_tidy(ind, d, p);
    lemma_repeated_tidy(ind, d + 1, p);
    let sep = ",\n"@ + repeated(ind, d + 1);
    lemma_tidy_concat(",\n"@, repeated(ind, d + 1), p, 0, 0);
    assert forall|i: int| 0 <= i < s.sqls().len() implies tidy(#[trigger] s.sqls()[i], p, 0) by {
        let q = s.projections@[i];
        assert(projection_plain(q, p));
        if let Some(a) = q.alias {
            lemma_tidy_concat(q.col@, " as "@, p, 0, 0);
            lemma_tidy_concat(q.col@ + " as "@, a@, p, 0, 0);
        }
    }
    lemma_joined_tidy(s.sqls(), sep, p);
    let x1 = repeated(ind, d) + "SELECT\n"@;
    lemma_tidy_concat(repeated(ind, d), "SELECT\n"@, p, 0, 0);
    let x2 = x1 + repeated(ind, d + 1);
    lemma_tidy_concat(x1, repeated(ind, d + 1), p, 0, 0);
    let x3 = x2 + joined(s.sqls(), sep);
    lemma_tidy_concat(x2, joined(s.sqls(), sep), p, 0, 0);
    let x4 = x3 + "\n"@;
    lemma_tidy_concat(x3, "\n"@, p, 0, 0);
    let x5 = x4 + repeated(ind, d);
    lemma_tidy_concat(x4, repeated(ind, d), p, 0, 0);
    let x6 = x5 + "FROM "@;
    lemma_tidy_concat(x5, "FROM "@, p, 0, 0);
    let x7 = x6 + s.table_name@;
    lemma_tidy_concat(x6, s.table_name@, p, 0, 0);
    let g = clause_text("GROUP BY "@, s.group_by, ind, d);
    let w = clause_text("WHERE "@, s.where_clause, ind, d);
    lemma_clause_tidy("GROUP BY "@, s.group_by, ind, d, p);
    lemma_clause_tidy("WHERE "@, s.where_clause, ind, d, p);
    lemma_tidy_concat(x7, g, p, 0, 0);
    lemma_tidy_concat(x7 + g, w, p, 0, 0);
}

proof fn lemma_select_tidy(s: Select, ind: Seq<char>, d: nat, p: Seq<char>)
    requires
        counted_keyword(p),
        tidy(ind, p, 0),
        select_plain(s, p),
    ensures
        tidy(select_text(s, ind, d), p, 0),
        tidy(lone_select_text(s, ind, d), p, 0),
{
    lemma_keyword_facts(p);
    lemma_fixed_words_tidy(p);
    lemma_repeated_tidy(ind, d, p);
    lemma_tidy_concat(repeated(ind, d), s.table_name@, p, 0, 0);
    lemma_body_tidy(s, ind, d + 1, p);
    lemma_tidy_concat(repeated(ind, d), "(\n"@, p, 0, 0);
    let b = select_body(s, ind, d + 1);
    lemma_tidy_concat(repeated(ind, d) + "(\n"@, b, p, 0, 0);
    lemma_tidy_concat("\n"@, repeated(ind, d), p, 0, 0);
    lemma_tidy_concat("\n"@ + repeated(ind, d), ")"@, p, 0, 0);
    lemma_tidy_concat(repeated(ind, d) + "(\n"@ + b, "\n"@ + repeated(ind, d) + ")"@, p, 0, 0);
    assert(repeated(ind, d) + "(\n"@ + b + "\n"@ + repeated(ind, d) + ")"@ =~= (repeated(ind, d) + "(\n"@ + b) + (
    "\n"@ + repeated(ind, d) + ")"@));
}

proof fn lemma_names_tidy(sels: Seq<Select>, start: int, end: int, p: Seq<char>)
    requires
        0 <= start,
        end <= sels.len(),
        forall|i: int| 0 <= i < sels.len() ==> select_plain(#[trigger] sels[i], p),
    ensures
        forall|k: int| 0 <= k < names_between(sels, start, end).len() ==> tidy(
            #[trigger] names_between(sels, start, end)[k],
            p,
            0,
        ),
    decreases end - start,
{
    if end > start {
        lemma_names_tidy(sels, start, end - 1, p);
        let a = names_between(sels, start, end - 1);
        let b = sels[end - 1].names();
        assert(select_plain(sels[end - 1], p));
        assert forall|k: int| 0 <= k < (a + b).len() implies tidy(#[trigger] (a + b)[k], p, 0) by {
            if k < a.len() {
                assert((a + b)[k] == a[k]);
            } else {
                assert((a + b)[k] == b[k - a.len()]);
                assert(projection_plain(sels[end - 1].projections@[k - a.len()], p));
            }
        }
    }
}

proof fn lemma_header_tidy(sels: Seq<Select>, start: int, ind: Seq<char>, d: nat, p: Seq<char>)
    requires
        counted_keyword(p),
        0 <= start <= sels.len(),
        tidy(ind, p, 0),
        forall|i: int| 0 <= i < sels.len() ==> select_plain(#[trigger] sels[i], p),
    ensures
        tidy(level_header(sels, start, ind, d), p, 0),
{
    reveal(level_header);
    lemma_keyword_facts(p);
    lemma_fixed_words_tidy(p);
    lemma_repeated_tidy(ind, d, p);
    lemma_repeated_tidy(ind, d + 1, p);
    let names = names_between(sels, start, sels.len() as int);
    let cols = level_columns(sels, start);
    lemma_names_tidy(sels, start, sels.len() as int, p);
    crate::laws::lemma_distinct_in_order(names);
    assert forall|i: int| 0 <= i < cols.len() implies tidy(#[trigger] cols[i], p, 0) by {
        assert(cols.contains(cols[i]));
        assert(names.contains(cols[i]));
        let k = choose|k: int| 0 <= k < names.len() && names[k] == cols[i];
        assert(tidy(names[k], p, 0));
    }
    let sep = ",\n"@ + repeated(ind, d + 1);
    lemma_tidy_concat(",\n"@, repeated(ind, d + 1), p, 0, 0);
    lemma_joined_tidy(cols, sep, p);
    let x1 = repeated(ind, d) + "SELECT\n"@;
    lemma_tidy_concat(repeated(ind, d), "SELECT\n"@, p, 0, 0);
    let x2 = x1 + repeated(ind, d + 1);
    lemma_tidy_concat(x1, repeated(ind, d + 1), p, 0, 0);
    let x3 = x2 + joined(cols, sep);
    lemma_tidy_concat(x2, joined(cols, sep), p, 0, 0);
    let x4 = x3 + "\n"@;
    lemma_tidy_concat(x3, "\n"@, p, 0, 0);
    let x5 = x4 + repeated(ind, d);
    lemma_tidy_concat(x4, repeated(ind, d), p, 0, 0);
    let x6 = x5 + "FROM\n"@;
    lemma_tidy_concat(x5, "FROM\n"@, p, 0, 0);
}

/// The number of times the join line holds `p`.
pub open spec fn join_line_count(p: Seq<char>) -> nat {
    if p == "JOIN"@ {
        1
    } else {
        0
    }
}

/// The number of times the key line holds `p`.
pub open spec fn using_line_count(p: Seq<char>) -> nat {
    if p == "USING"@ {
        1
    } else {
        0
    }
}

proof fn lemma_join_line_tidy(t: JoinType, ind: Seq<char>, d: nat, p: Seq<char>)
    requires
        counted_keyword(p),
        tidy(ind, p, 0),
    ensures
        tidy(join_line(t, ind, d), p, join_line_count(p)),
{
    lemma_keyword_facts(p);
    lemma_fixed_words_tidy(p);
    lemma_repeated_tidy(ind, d + 1, p);
    let head = "\n"@ + repeated(ind, d + 1) + "ALL "@;
    lemma_tidy_concat("\n"@, repeated(ind, d + 1), p, 0, 0);
    lemma_tidy_concat("\n"@ + repeated(ind, d + 1), "ALL "@, p, 0, 0);
    lemma_join_word_tidy(t, p);
    lemma_tidy_concat(head, t.keyword() + " JOIN\n"@, p, 0, join_line_count(p));
    assert(join_line(t, ind, d) =~= head + (t.keyword() + " JOIN\n"@));
}

proof fn lemma_using_line_tidy(key: Seq<char>, ind: Seq<char>, d: nat, p: Seq<char>)
    requires
        counted_keyword(p),
        tidy(ind, p, 0),
        tidy(key, p, 0),
    ensures
        tidy(using_line(key, ind, d), p, using_line_count(p)),
{
    lemma_keyword_facts(p);
    lemma_fixed_words_tidy(p);
    lemma_repeated_tidy(ind, d + 1, p);
    let head = "\n"@ + repeated(ind, d + 1);
    lemma_tidy_concat("\n"@, repeated(ind, d + 1), p, 0, 0);
    lemma_using_word_tidy(p);
    lemma_tidy_concat(head, "USING "@, p, 0, using_line_count(p));
    lemma_tidy_concat(head + "USING "@, key, p, using_line_count(p), 0);
}

proof fn lemma_subquery_tidy(
    sels: Seq<Select>,
    joins: Seq<(String, JoinType)>,
    start: int,
    ind: Seq<char>,
    d: nat,
    rev: bool,
    p: Seq<char>,
)
    requires
        counted_keyword(p),
        joins.len() + 1 == sels.len(),
        0 <= start < sels.len(),
        tidy(ind, p, 0),
        forall|i: int| 0 <= i < sels.len() ==> select_plain(#[trigger] sels[i], p),
        forall|i: int| 0 <= i < joins.len() ==> tidy((#[trigger] joins[i]).0@, p, 0),
    ensures
        tidy(subquery_text(sels, joins, start, ind, d, rev), p, (joins.len() - start) as nat),
    decreases sels.len() - start,
{
    lemma_keyword_facts(p);
    if start >= joins.len() {
        lemma_select_tidy(sels[start], ind, d, p);
    } else {
        let n = (joins.len() - start - 1) as nat;
        let popped = select_text(sels[start], ind, d + 1);
        lemma_select_tidy(sels[start], ind, d + 1, p);
        let rest = if start + 2 < sels.len() {
            repeated(ind, d + 1) + "(\n"@ + subquery_text(sels, joins, start + 1, ind, d + 2, rev) + "\n"@
                + repeated(ind, d + 1) + ")"@
        } else {
            select_text(sels[start + 1], ind, d + 1)
        };
        if start + 2 < sels.len() {
            lemma_subquery_tidy(sels, joins, start + 1, ind, d + 2, rev, p);
            lemma_fixed_words_tidy(p);
            lemma_repeated_tidy(ind, d + 1, p);
            let pre = repeated(ind, d + 1) + "(\n"@;
            let post = "\n"@ + repeated(ind, d + 1) + ")"@;
            let inner = subquery_text(sels, joins, start + 1, ind, d + 2, rev);
            lemma_tidy_concat(repeated(ind, d + 1), "(\n"@, p, 0, 0);
            lemma_tidy_concat("\n"@, repeated(ind, d + 1), p, 0, 0);
            lemma_tidy_concat("\n"@ + repeated(ind, d + 1), ")"@, p, 0, 0);
            lemma_tidy_concat(pre, inner, p, 0, n);
            lemma_tidy_concat(pre + inner, post, p, n, 0);
            assert(rest =~= pre + inner + post);
        } else {
            lemma_select_tidy(sels[start + 1], ind, d + 1, p);
        }
        let mid = join_line(joins[start].1, ind, d);
        lemma_join_line_tidy(joins[start].1, ind, d, p);
        let header = level_header(sels, start, ind, d);
        lemma_header_tidy(sels, start, ind, d, p);
        let using = using_line(joins[start].0@, ind, d);
        assert(tidy(joins[start].0@, p, 0));
        lemma_using_line_tidy(joins[start].0@, ind, d, p);
        let jn = join_line_count(p);
        let body = if rev {
            lemma_tidy_concat(rest, mid, p, n, jn);
            lemma_tidy_concat(rest + mid, popped, p, n + jn, 0);
            rest + mid + popped
        } else {
            lemma_tidy_concat(popped, mid, p, 0, jn);
            lemma_tidy_concat(popped + mid, rest, p, jn, n);
            popped + mid + rest
        };
        assert(tidy(body, p, n + jn));
        lemma_tidy_concat(header, body, p, 0, n + jn);
        lemma_tidy_concat(header + body, using, p, n + jn, using_line_count(p));
        assert(subquery_text(sels, joins, start, ind, d, rev) == header + body + using);
    }
}

proof fn lemma_statement_count(st: Statement, ind: Seq<char>, rev: bool, p: Seq<char>)
    requires
        counted_keyword(p),
        st.wf(),
        statement_plain(st, ind, p),
    ensures
        occurrences(statement_text(st, ind, rev), p) == st.joins@.len(),
{
    lemma_keyword_facts(p);
    let d: nat = if st.create_table is Some {
        1
    } else {
        0
    };
    lemma_subquery_tidy(st.selects@, st.joins@, 0, ind, d, rev, p);
    let body = subquery_text(st.selects@, st.joins@, 0, ind, d, rev);
    if let Some(t) = st.create_table {
        lemma_fixed_words_tidy(p);
        let head = "CREATE TABLE "@ + t@ + " AS\n(\n"@;
        lemma_tidy_concat("CREATE TABLE "@, t@, p, 0, 0);
        lemma_tidy_concat("CREATE TABLE "@ + t@, " AS\n(\n"@, p, 0, 0);
        lemma_tidy_concat(head, body, p, 0, st.joins@.len());
        lemma_tidy_concat(head + body, "\n)"@, p, st.joins@.len(), 0);
    }
}

/// In the text of a well-formed statement, `JOIN` occurs exactly once per
/// join, in either nesting mode, where no text that the statement or the
/// indentation unit supplies holds `JOIN` or ends inside it (has a `J` among
/// its last three characters).
pub proof fn law_join_keyword_once_per_join(st: Statement, ind: Seq<char>, rev: bool)
    requires
        st.wf(),
        statement_plain(st, ind, "JOIN"@),
    ensures
        occurrences(statement_text(st, ind, rev), "JOIN"@) == st.joins@.len(),
{
    reveal_strlit("JOIN");
    lemma_statement_count(st, ind, rev, "JOIN"@);
}

/// In the text of a well-formed statement, `USING` occurs exactly once per
/// join, in either nesting mode, where no text that the statement or the
/// indentation unit supplies holds `USING` or ends inside it (has a `U`
/// among its last four characters).
pub proof fn law_using_keyword_once_per_join(st: Statement, ind: Seq<char>, rev: bool)
    requires
        st.wf(),
        statement_plain(st, ind, "USING"@),
    ensures
        occurrences(statement_text(st, ind, rev), "USING"@) == st.joins@.len(),
{
    reveal_strlit("USING");
    lemma_statement_count(st, ind, rev, "USING"@);
}

} // verus!
