//! Properties of composition that hold for every statement.

use vstd::prelude::*;
use vstd::seq_lib::lemma_multiset_commutative;
use crate::compose::{
    distinct_in_order, join_line, level_columns, level_header, lone_select_text, names_between, select_text,
    statement_text, subquery_text, using_line,
};
use crate::model::{JoinType, Select, Statement};
use crate::text::repeated;

verus! {

/// A name occurs in `distinct_in_order(s)` exactly where it occurs in `s`,
/// once, and in the order of first occurrence in `s`.
pub(crate) proof fn lemma_distinct_in_order(s: Seq<Seq<char>>)
    ensures
        forall|x: Seq<char>| #[trigger] distinct_in_order(s).contains(x) <==> s.contains(x),
        distinct_in_order(s).no_duplicates(),
        forall|i: int, j: int, q: int|
            #![trigger distinct_in_order(s)[i], distinct_in_order(s)[j], s[q]]
            0 <= i < j < distinct_in_order(s).len() && 0 <= q < s.len() && s[q]
                == distinct_in_order(s)[j] ==> s.take(q).contains(distinct_in_order(s)[i]),
    decreases s.len(),
{
    if s.len() > 0 {
        let t = s.drop_last();
        let x = s.last();
        lemma_distinct_in_order(t);
        let d = distinct_in_order(t);
        assert(s =~= t.push(x));
        assert forall|y: Seq<char>| #[trigger] distinct_in_order(s).contains(y) <==> s.contains(y) by {
            if s.contains(y) && y != x {
                let k = choose|k: int| 0 <= k < s.len() && s[k] == y;
                assert(t[k] == y);
                assert(d.contains(y));
            }
            if t.contains(y) {
                let k = choose|k: int| 0 <= k < t.len() && t[k] == y;
                assert(s[k] == y);
            }
            if y == x {
                assert(s[s.len() - 1] == y);
            }
            if !d.contains(x) {
                assert(d.push(x)[d.len() as int] == x);
                if d.push(x).contains(y) && y != x {
                    let k = choose|k: int| 0 <= k < d.push(x).len() && d.push(x)[k] == y;
                    assert(d[k] == y);
                }
                if d.contains(y) {
                    let k = choose|k: int| 0 <= k < d.len() && d[k] == y;
                    assert(d.push(x)[k] == y);
                }
            }
        }
        let e = distinct_in_order(s);
        assert forall|i: int, j: int, q: int|
            #![trigger e[i], e[j], s[q]]
            0 <= i < j < e.len() && 0 <= q < s.len() && s[q] == e[j] implies s.take(q).contains(e[i]) by {
            assert(i < d.len());
            assert(e[i] == d[i]);
            if q < t.len() {
                assert(t[q] == s[q]);
                if j < d.len() {
                    assert(e[j] == d[j]);
                    assert(t[q] == d[j]);
                    assert(t.take(q).contains(d[i]));
                    let p = choose|p: int| 0 <= p < t.take(q).len() && t.take(q)[p] == d[i];
                    assert(s.take(q)[p] == e[i]);
                } else {
                    assert(e[j] == x && !d.contains(x));
                    assert(t[q] == x);
                    assert(t.contains(x));
                    assert(false);
                }
            } else {
                assert(d.contains(d[i]));
                let p = choose|p: int| 0 <= p < t.len() && t[p] == d[i];
                assert(s.take(q)[p] == e[i]);
            }
        }
    } else {
        assert(distinct_in_order(s).len() == 0);
    }
}

/// The column list of every level holds each name that a select from that
/// level on projects exactly once, and the names appear in the order in
/// which they first occur in the selects; where two adjacent selects both
/// project a name, it is listed once, at its first occurrence.
pub proof fn law_level_columns_once_in_first_order(sels: Seq<Select>, start: int)
    ensures
        ({
            let names = names_between(sels, start, sels.len() as int);
            let cols = level_columns(sels, start);
            &&& forall|x: Seq<char>| #[trigger] cols.contains(x) <==> names.contains(x)
            &&& forall|i: int, j: int| 0 <= i < cols.len() && 0 <= j < cols.len() && cols[i] == cols[j] ==> i == j
            &&& forall|i: int, j: int, q: int|
                #![trigger cols[i], cols[j], names[q]]
                0 <= i < j < cols.len() && 0 <= q < names.len() && names[q] == cols[j]
                    ==> names.take(q).contains(cols[i])
        }),
{
    let names = names_between(sels, start, sels.len() as int);
    let cols = level_columns(sels, start);
    lemma_distinct_in_order(names);
    assert(cols.no_duplicates());
    assert forall|i: int, j: int| 0 <= i < cols.len() && 0 <= j < cols.len() && cols[i] == cols[j] implies i == j by {
        if i != j {
            assert(cols[i] != cols[j]);
        }
    }
}

/// A select that projects nothing renders as its table name, with no
/// parentheses, whether it is a join operand or stands alone.
pub proof fn law_bare_select_is_table_name(s: Select, ind: Seq<char>, d: nat)
    requires
        s.projections@.len() == 0,
    ensures
        select_text(s, ind, d) == repeated(ind, d) + s.table_name@,
        lone_select_text(s, ind, d) == repeated(ind, d) + s.table_name@,
{
}

/// Reverse nesting changes only the order of the operands at each level:
/// the text has the same header and the same closing `USING` line, and the
/// same characters, as many times each, as in normal nesting.
pub proof fn law_reverse_nesting_same_parts(
    sels: Seq<Select>,
    joins: Seq<(String, JoinType)>,
    start: int,
    ind: Seq<char>,
    d: nat,
)
    requires
        0 <= start < sels.len(),
        joins.len() + 1 == sels.len(),
    ensures
        subquery_text(sels, joins, start, ind, d, true).to_multiset() =~= subquery_text(
            sels,
            joins,
            start,
            ind,
            d,
            false,
        ).to_multiset(),
        start < joins.len() ==> {
            let header = level_header(sels, start, ind, d);
            let using = using_line(joins[start].0@, ind, d);
            &&& subquery_text(sels, joins, start, ind, d, true).subrange(0, header.len() as int) == header
            &&& subquery_text(sels, joins, start, ind, d, false).subrange(0, header.len() as int) == header
            &&& subquery_text(sels, joins, start, ind, d, true).subrange(
                subquery_text(sels, joins, start, ind, d, true).len() - using.len(),
                subquery_text(sels, joins, start, ind, d, true).len() as int,
            ) == using
            &&& subquery_text(sels, joins, start, ind, d, false).subrange(
                subquery_text(sels, joins, start, ind, d, false).len() - using.len(),
                subquery_text(sels, joins, start, ind, d, false).len() as int,
            ) == using
        },
    decreases sels.len() - start,
{
    if start < joins.len() {
        let popped = select_text(sels[start], ind, d + 1);
        let mid = join_line(joins[start].1, ind, d);
        let header = level_header(sels, start, ind, d);
        let using = using_line(joins[start].0@, ind, d);
        let (rest_t, rest_f) = if start + 2 < sels.len() {
            law_reverse_nesting_same_parts(sels, joins, start + 1, ind, d + 2);
            let pre = repeated(ind, d + 1) + "(\n"@;
            let post = "\n"@ + repeated(ind, d + 1) + ")"@;
            let it = subquery_text(sels, joins, start + 1, ind, d + 2, true);
            let f = subquery_text(sels, joins, start + 1, ind, d + 2, false);
            lemma_multiset_commutative(pre, it);
            lemma_multiset_commutative(pre + it, post);
            lemma_multiset_commutative(pre, f);
            lemma_multiset_commutative(pre + f, post);
            (pre + it + post, pre + f + post)
        } else {
            let r = select_text(sels[start + 1], ind, d + 1);
            (r, r)
        };
        assert(rest_t.to_multiset() =~= rest_f.to_multiset());
        let t = subquery_text(sels, joins, start, ind, d, true);
        let f = subquery_text(sels, joins, start, ind, d, false);
        assert(t == header + (rest_t + mid + popped) + using);
        assert(f == header + (popped + mid + rest_f) + using);
        lemma_multiset_commutative(rest_t, mid);
        lemma_multiset_commutative(rest_t + mid, popped);
        lemma_multiset_commutative(popped, mid);
        lemma_multiset_commutative(popped + mid, rest_f);
        lemma_multiset_commutative(header, rest_t + mid + popped);
        lemma_multiset_commutative(header + (rest_t + mid + popped), using);
        lemma_multiset_commutative(header, popped + mid + rest_f);
        lemma_multiset_commutative(header + (popped + mid + rest_f), using);
        assert(t.subrange(0, header.len() as int) =~= header);
        assert(f.subrange(0, header.len() as int) =~= header);
        assert(t.subrange(t.len() - using.len(), t.len() as int) =~= using);
        assert(f.subrange(f.len() - using.len(), f.len() as int) =~= using);
    }
}

/// With an output table `t`, the text starts with `CREATE TABLE t AS` and
/// the rest is the composed chain in parentheses; without one, it is the
/// composed chain alone.
pub proof fn law_create_table_wrapping(st: Statement, ind: Seq<char>, rev: bool)
    ensures
        match st.create_table {
            Some(t) => {
                let head = "CREATE TABLE "@ + t@ + " AS"@;
                let text = statement_text(st, ind, rev);
                &&& text.subrange(0, head.len() as int) == head
                &&& text.subrange(head.len() as int, text.len() as int) == "\n(\n"@ + subquery_text(
                    st.selects@,
                    st.joins@,
                    0,
                    ind,
                    1,
                    rev,
                ) + "\n)"@
            },
            None => statement_text(st, ind, rev) == subquery_text(st.selects@, st.joins@, 0, ind, 0, rev),
        },
{
    if let Some(t) = st.create_table {
        reveal_strlit(" AS\n(\n");
        reveal_strlit(" AS");
        reveal_strlit("\n(\n");
        assert(" AS\n(\n"@ =~= " AS"@ + "\n(\n"@);
        let head = "CREATE TABLE "@ + t@ + " AS"@;
        let text = statement_text(st, ind, rev);
        let body = subquery_text(st.selects@, st.joins@, 0, ind, 1, rev);
        assert(text =~= head + ("\n(\n"@ + body + "\n)"@));
        assert(text.subrange(0, head.len() as int) =~= head);
        assert(text.subrange(head.len() as int, text.len() as int) =~= "\n(\n"@ + body + "\n)"@);
    }
}

} // verus!
