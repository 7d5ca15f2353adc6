//! The statement model: join types, projection columns, selects and the
//! statement itself, with the parsers that build them from configuration
//! text and the validation that composition relies on.

use vstd::prelude::*;
use vstd::string::*;
use crate::text::{absent_from, find_from, first_from, occurs_at, trim_text, trimmed};

verus! {

/// Why a configuration could not become a statement.
#[derive(Clone, Copy, Debug, PartialEq, Eq, Structural)]
pub enum ConfigError {
    /// A projection holds the `" as "` delimiter more than once.
    AmbiguousProjection,
    /// A join names a type other than inner, left, right or outer.
    UnknownJoinType,
    /// The number of joins is not one less than the number of selects.
    JoinCountMismatch { selects: usize, joins: usize },
    /// The join key at `index` is not a projected name of both selects it joins.
    UnjoinableKey { index: usize },
}

/// The kind of a two-way join.
#[derive(Clone, Copy, Debug, PartialEq, Eq, Structural)]
pub enum JoinType {
    Right,
    Left,
    Inner,
    Outer,
}

/// `c` is the lower-case ASCII letter `w`, in either case.
pub open spec fn same_letter(c: char, w: char) -> bool {
    c == w || (c as u32) + 32 == (w as u32)
}

/// `s` spells `word` (lower-case ASCII letters), ignoring case.
pub open spec fn spells(s: Seq<char>, word: Seq<char>) -> bool {
    &&& s.len() == word.len()
    &&& forall|k: int| 0 <= k < s.len() ==> same_letter(#[trigger] s[k], word[k])
}

/// The join type that a token names, if any.
pub open spec fn join_type_named(s: Seq<char>) -> Option<JoinType> {
    if spells(s, "inner"@) {
        Some(JoinType::Inner)
    } else if spells(s, "left"@) {
        Some(JoinType::Left)
    } else if spells(s, "right"@) {
        Some(JoinType::Right)
    } else if spells(s, "outer"@) {
        Some(JoinType::Outer)
    } else {
        None
    }
}

/// Whether `s` spells `word`, ignoring case.
fn spells_word(s: &str, word: &str) -> (r: bool)
    ensures
        r == spells(s@, word@),
{
    let n = s.unicode_len();
    if n != word.unicode_len() {
        return false;
    }
    let mut k: usize = 0;
    while k < n
        invariant
            k <= n,
            n == s@.len(),
            n == word@.len(),
            forall|m: int| 0 <= m < k ==> same_letter(#[trigger] s@[m], word@[m]),
        decreases n - k,
    {
        let c = s.get_char(k);
        let w = word.get_char(k);
        if !(c == w || (c as u32) + 32 == (w as u32)) {
            return false;
        }
        k = k + 1;
    }
    true
}

impl JoinType {
    /// The keyword that names this join type in SQL.
    pub open spec fn keyword(self) -> Seq<char> {
        match self {
            JoinType::Right => "RIGHT"@,
            JoinType::Left => "LEFT"@,
            JoinType::Inner => "INNER"@,
            JoinType::Outer => "OUTER"@,
        }
    }

    /// The keyword that names this join type in SQL.
    pub fn to_string(&self) -> (r: String)
        ensures
            r@ == self.keyword(),
    {
        match self {
            JoinType::Right => String::from_str("RIGHT"),
            JoinType::Left => String::from_str("LEFT"),
            JoinType::Inner => String::from_str("INNER"),
            JoinType::Outer => String::from_str("OUTER"),
        }
    }

    /// Reads a join type: inner, left, right or outer, in any case.
    pub fn from_str(s: &str) -> (r: Result<JoinType, ConfigError>)
        ensures
            match join_type_named(s@) {
                Some(t) => r == Ok::<JoinType, ConfigError>(t),
                None => r == Err::<JoinType, ConfigError>(ConfigError::UnknownJoinType),
            },
    {
        if spells_word(s, "inner") {
            Ok(JoinType::Inner)
        } else if spells_word(s, "left") {
            Ok(JoinType::Left)
        } else if spells_word(s, "right") {
            Ok(JoinType::Right)
        } else if spells_word(s, "outer") {
            Ok(JoinType::Outer)
        } else {
            Err(ConfigError::UnknownJoinType)
        }
    }
}

impl Default for JoinType {
    fn default() -> (r: Self)
        ensures
            r == JoinType::Inner,
    {
        JoinType::Inner
    }
}

/// The delimiter between a column and its alias.
pub open spec fn alias_delimiter() -> Seq<char> {
    " as "@
}

/// The first place at or after `start` where `pat` stands in `s`, where it
/// stands there at all.
pub open spec fn first_index(s: Seq<char>, pat: Seq<char>, start: int) -> int {
    choose|i: int| first_from(s, pat, start, i)
}

/// There is at most one first place.
pub proof fn lemma_first_unique(s: Seq<char>, pat: Seq<char>, start: int, i: int)
    requires
        first_from(s, pat, start, i),
    ensures
        first_index(s, pat, start) == i,
{
    let j = first_index(s, pat, start);
    assert(first_from(s, pat, start, j));
    if j < i {
        assert(occurs_at(s, pat, j));
    } else if i < j {
        assert(occurs_at(s, pat, i));
    }
}

/// What a projection text parses to, as column and optional alias: the
/// whole text where it holds no delimiter; the trimmed parts around a single
/// delimiter; nothing where it holds more than one.
pub open spec fn projection_of(s: Seq<char>) -> Option<(Seq<char>, Option<Seq<char>>)> {
    let d = alias_delimiter();
    if absent_from(s, d, 0) {
        Some((s, None))
    } else {
        let i = first_index(s, d, 0);
        if absent_from(s, d, i + d.len()) {
            Some((trimmed(s.subrange(0, i)), Some(trimmed(s.subrange(i + d.len(), s.len() as int)))))
        } else {
            None
        }
    }
}

/// A projected column with an optional alias.
#[derive(Clone, Debug)]
pub struct ProjectionCol {
    pub col: String,
    pub alias: Option<String>,
}

impl View for ProjectionCol {
    type V = (Seq<char>, Option<Seq<char>>);

    open spec fn view(&self) -> (Seq<char>, Option<Seq<char>>) {
        (self.col@, self.alias.deep_view())
    }
}

impl ProjectionCol {
    /// The name the column goes by: its alias if it has one, else the column.
    pub open spec fn name(self) -> Seq<char> {
        match self.alias {
            Some(a) => a@,
            None => self.col@,
        }
    }

    /// The column as written in a select list.
    pub open spec fn sql(self) -> Seq<char> {
        match self.alias {
            Some(a) => self.col@ + alias_delimiter() + a@,
            None => self.col@,
        }
    }

    /// Parses `"col"` or `"col as alias"`.
    pub fn from_str(s: &str) -> (r: Result<ProjectionCol, ConfigError>)
        ensures
            match projection_of(s@) {
                Some(v) => r is Ok && r->Ok_0@ == v,
                None => r == Err::<ProjectionCol, ConfigError>(ConfigError::AmbiguousProjection),
            },
    {
        let d = " as ";
        proof {
            reveal_strlit(" as ");
        }
        let n = s.unicode_len();
        match find_from(s, d, 0) {
            None => Ok(ProjectionCol { col: s.to_owned(), alias: None }),
            Some(i) => {
                proof {
                    lemma_first_unique(s@, d@, 0, i as int);
                }
                match find_from(s, d, i + 4) {
                    Some(_) => Err(ConfigError::AmbiguousProjection),
                    None => {
                        let col = trim_text(s.substring_char(0, i));
                        let alias = trim_text(s.substring_char(i + 4, n));
                        Ok(ProjectionCol { col, alias: Some(alias) })
                    },
                }
            },
        }
    }

    /// The column as written in a select list: `col` or `col as alias`.
    pub fn sql_string(&self) -> (r: String)
        ensures
            r@ == self.sql(),
    {
        match &self.alias {
            Some(a) => {
                let mut r = self.col.clone();
                r.append(" as ");
                r.append(a.as_str());
                r
            },
            None => self.col.clone(),
        }
    }

    /// The name the column goes by: its alias if it has one, else the column.
    pub fn aliased(&self) -> (r: String)
        ensures
            r@ == self.name(),
    {
        match &self.alias {
            Some(a) => a.clone(),
            None => self.col.clone(),
        }
    }
}

/// The delimiter between a join key and its join type.
pub open spec fn type_delimiter() -> Seq<char> {
    "::::"@
}

/// What a join entry parses to: the key before the first delimiter, kept
/// verbatim, and the type named between it and the next delimiter (or the
/// end); the whole entry and `default` where it holds no delimiter.
pub open spec fn join_of(s: Seq<char>, default: JoinType) -> Result<(Seq<char>, JoinType), ConfigError> {
    let d = type_delimiter();
    if absent_from(s, d, 0) {
        Ok((s, default))
    } else {
        let i = first_index(s, d, 0);
        let from = i + d.len();
        let to = if absent_from(s, d, from) {
            s.len() as int
        } else {
            first_index(s, d, from)
        };
        match join_type_named(s.subrange(from, to)) {
            Some(t) => Ok((s.subrange(0, i), t)),
            None => Err(ConfigError::UnknownJoinType),
        }
    }
}

/// Parses a join entry, `"key"` or `"key::::type"`; `default` is the type of
/// an entry that names none.
pub fn parse_join(s: &str, default: JoinType) -> (r: Result<(String, JoinType), ConfigError>)
    ensures
        match join_of(s@, default) {
            Ok((k, t)) => r is Ok && r->Ok_0.0@ == k && r->Ok_0.1 == t,
            Err(e) => r == Err::<(String, JoinType), ConfigError>(e),
        },
{
    let d = "::::";
    proof {
        reveal_strlit("::::");
    }
    let n = s.unicode_len();
    match find_from(s, d, 0) {
        None => Ok((s.to_owned(), default)),
        Some(i) => {
            proof {
                lemma_first_unique(s@, d@, 0, i as int);
            }
            let to = match find_from(s, d, i + 4) {
                Some(j) => {
                    proof {
                        lemma_first_unique(s@, d@, i + 4, j as int);
                    }
                    j
                },
                None => n,
            };
            match JoinType::from_str(s.substring_char(i + 4, to)) {
                Ok(join_type) => Ok((s.substring_char(0, i).to_owned(), join_type)),
                Err(e) => Err(e),
            }
        },
    }
}

/// One table of the chain: its projected columns (none: the table is
/// referenced directly), and optional group-by and where clauses.
#[derive(Clone, Debug)]
pub struct Select {
    pub table_name: String,
    pub projections: Vec<ProjectionCol>,
    pub group_by: Option<String>,
    pub where_clause: Option<String>,
}

impl Select {
    /// The names the projected columns go by, in order.
    pub open spec fn names(self) -> Seq<Seq<char>> {
        self.projections@.map_values(|p: ProjectionCol| p.name())
    }

    /// The projected columns as written in a select list, in order.
    pub open spec fn sqls(self) -> Seq<Seq<char>> {
        self.projections@.map_values(|p: ProjectionCol| p.sql())
    }

    /// The names the projected columns go by, in order.
    pub fn aliased_projections(&self) -> (r: Vec<String>)
        ensures
            r.deep_view() == self.names(),
    {
        let mut r: Vec<String> = Vec::new();
        let mut i: usize = 0;
        while i < self.projections.len()
            invariant
                i <= self.projections@.len(),
                r@.len() == i,
                forall|k: int| 0 <= k < i ==> (#[trigger] r@[k])@ == self.projections@[k].name(),
            decreases self.projections@.len() - i,
        {
            r.push(self.projections[i].aliased());
            i = i + 1;
        }
        assert(r.deep_view() =~= self.names());
        r
    }

    /// The projected columns as written in a select list, in order.
    pub fn projections_sql(&self) -> (r: Vec<String>)
        ensures
            r.deep_view() == self.sqls(),
    {
        let mut r: Vec<String> = Vec::new();
        let mut i: usize = 0;
        while i < self.projections.len()
            invariant
                i <= self.projections@.len(),
                r@.len() == i,
                forall|k: int| 0 <= k < i ==> (#[trigger] r@[k])@ == self.projections@[k].sql(),
            decreases self.projections@.len() - i,
        {
            r.push(self.projections[i].sql_string());
            i = i + 1;
        }
        assert(r.deep_view() =~= self.sqls());
        r
    }
}

/// The raw shape of one select, before its projections are parsed.
#[derive(Clone, Debug)]
pub struct SelectConfig {
    pub table_name: String,
    pub projections: Vec<String>,
    pub group_by: Option<String>,
    pub where_clause: Option<String>,
}

impl SelectConfig {
    /// Every projection text parses.
    pub open spec fn parses(self) -> bool {
        forall|i: int| 0 <= i < self.projections@.len() ==> (#[trigger] projection_of(self.projections@[i]@)) is Some
    }

    /// `s` is this select with its projections parsed.
    pub open spec fn parses_to(self, s: Select) -> bool {
        &&& s.table_name == self.table_name
        &&& s.group_by == self.group_by
        &&& s.where_clause == self.where_clause
        &&& s.projections@.len() == self.projections@.len()
        &&& forall|i: int| 0 <= i < self.projections@.len() ==>
            projection_of(self.projections@[i]@) == Some(#[trigger] s.projections@[i]@)
    }
}

impl Select {
    /// Parses the projections of a select.
    pub fn try_from(config: SelectConfig) -> (r: Result<Select, ConfigError>)
        ensures
            config.parses() ==> r is Ok && config.parses_to(r->Ok_0),
            !config.parses() ==> r == Err::<Select, ConfigError>(ConfigError::AmbiguousProjection),
    {
        let ghost c = config;
        let SelectConfig { table_name, projections: texts, group_by, where_clause } = config;
        let mut projections: Vec<ProjectionCol> = Vec::new();
        let mut i: usize = 0;
        while i < texts.len()
            invariant
                c == config,
                texts == c.projections,
                i <= texts@.len(),
                projections@.len() == i,
                forall|k: int| 0 <= k < i ==> projection_of(texts@[k]@) == Some(#[trigger] projections@[k]@),
            decreases texts@.len() - i,
        {
            match ProjectionCol::from_str(texts[i].as_str()) {
                Ok(p) => projections.push(p),
                Err(e) => {
                    assert(projection_of(c.projections@[i as int]@) is None);
                    assert(!c.parses());
                    return Err(e);
                },
            }
            i = i + 1;
        }
        assert(c.parses()) by {
            assert forall|k: int| 0 <= k < c.projections@.len() implies (#[trigger] projection_of(
                c.projections@[k]@,
            )) is Some by {
                assert(projection_of(texts@[k]@) == Some(projections@[k]@));
            }
        }
        Ok(Select { table_name, projections, group_by, where_clause })
    }
}

/// The raw shape of a statement: join entries not yet parsed, and the join
/// type of an entry that names none.
#[derive(Clone, Debug)]
pub struct StatementConfig {
    pub create_table: Option<String>,
    pub joins: Option<Vec<String>>,
    pub selects: Vec<SelectConfig>,
    pub global_join_type: JoinType,
}

impl StatementConfig {
    /// The join entries; none where the field is absent.
    pub open spec fn join_texts(self) -> Seq<String> {
        match self.joins {
            Some(v) => v@,
            None => Seq::empty(),
        }
    }

    /// Every select parses.
    pub open spec fn selects_parse(self) -> bool {
        forall|i: int| 0 <= i < self.selects@.len() ==> (#[trigger] self.selects@[i]).parses()
    }

    /// Every join entry parses.
    pub open spec fn joins_parse(self) -> bool {
        forall|i: int| 0 <= i < self.join_texts().len() ==>
            (#[trigger] join_of(self.join_texts()[i]@, self.global_join_type)) is Ok
    }

    /// `st` is this configuration with every part parsed.
    pub open spec fn parses_to(self, st: Statement) -> bool {
        &&& st.create_table == self.create_table
        &&& st.selects@.len() == self.selects@.len()
        &&& forall|i: int| 0 <= i < self.selects@.len() ==> self.selects@[i].parses_to(#[trigger] st.selects@[i])
        &&& st.joins@.len() == self.join_texts().len()
        &&& forall|i: int| 0 <= i < self.join_texts().len() ==>
            join_of(self.join_texts()[i]@, self.global_join_type) == Ok::<(Seq<char>, JoinType), ConfigError>(
                ((#[trigger] st.joins@[i]).0@, st.joins@[i].1))
    }
}

/// A chain of selects, each joined to the next by a key and a join type,
/// optionally written into a new table.
#[derive(Clone, Debug)]
pub struct Statement {
    pub create_table: Option<String>,
    pub joins: Vec<(String, JoinType)>,
    pub selects: Vec<Select>,
}

impl Statement {
    /// There is one join fewer than there are selects.
    pub open spec fn wf(&self) -> bool {
        self.joins@.len() + 1 == self.selects@.len()
    }

    /// The key of the join at `i` names a projected column of both selects
    /// it joins.
    pub open spec fn joinable_at(&self, i: int) -> bool {
        let key = self.joins@[i].0@;
        self.selects@[i].names().contains(key) && self.selects@[i + 1].names().contains(key)
    }

    /// Parses every select and every join entry of a configuration.
    pub fn try_from(config: StatementConfig) -> (r: Result<Statement, ConfigError>)
        ensures
            config.selects_parse() && config.joins_parse() ==> r is Ok && config.parses_to(r->Ok_0),
            !config.selects_parse() ==> r == Err::<Statement, ConfigError>(ConfigError::AmbiguousProjection),
            config.selects_parse() && !config.joins_parse() ==> r == Err::<Statement, ConfigError>(
                ConfigError::UnknownJoinType),
    {
        let ghost c = config;
        let StatementConfig { create_table, joins: join_texts, selects: mut select_configs, global_join_type } =
            config;
        let mut selects: Vec<Select> = Vec::new();
        let mut i: usize = 0;
        let n = select_configs.len();
        while i < n
            invariant
                c == config,
                n == c.selects@.len(),
                i <= n,
                select_configs@ == c.selects@.subrange(i as int, n as int),
                selects@.len() == i,
                forall|k: int| 0 <= k < i ==> c.selects@[k].parses_to(#[trigger] selects@[k]),
            decreases n - i,
        {
            let sc = select_configs.remove(0);
            assert(sc == c.selects@[i as int]);
            match Select::try_from(sc) {
                Ok(s) => selects.push(s),
                Err(e) => {
                    assert(!c.selects@[i as int].parses());
                    return Err(e);
                },
            }
            i = i + 1;
            assert(select_configs@ =~= c.selects@.subrange(i as int, n as int));
        }
        assert(c.selects_parse()) by {
            assert forall|k: int| 0 <= k < c.selects@.len() implies (#[trigger] c.selects@[k]).parses() by {
                assert(c.selects@[k].parses_to(selects@[k]));
                assert forall|m: int| 0 <= m < c.selects@[k].projections@.len() implies (#[trigger] projection_of(
                    c.selects@[k].projections@[m]@,
                )) is Some by {
                    assert(projection_of(c.selects@[k].projections@[m]@) == Some(selects@[k].projections@[m]@));
                }
            }
        }
        let texts: Vec<String> = match join_texts {
            Some(v) => v,
            None => Vec::new(),
        };
        assert(texts@ == c.join_texts());
        let mut joins: Vec<(String, JoinType)> = Vec::new();
        let mut j: usize = 0;
        while j < texts.len()
            invariant
                c == config,
                c.selects_parse(),
                forall|k: int| 0 <= k < c.selects@.len() ==> c.selects@[k].parses_to(#[trigger] selects@[k]),
                selects@.len() == c.selects@.len(),
                texts@ == c.join_texts(),
                global_join_type == c.global_join_type,
                j <= texts@.len(),
                joins@.len() == j,
                forall|k: int| 0 <= k < j ==> join_of(texts@[k]@, global_join_type) == Ok::<(Seq<char>, JoinType), ConfigError>(
                    ((#[trigger] joins@[k]).0@, joins@[k].1)),
            decreases texts@.len() - j,
        {
            match parse_join(texts[j].as_str(), global_join_type) {
                Ok(p) => joins.push(p),
                Err(e) => {
                    assert(join_of(c.join_texts()[j as int]@, c.global_join_type) is Err);
                    assert(!c.joins_parse());
                    return Err(e);
                },
            }
            j = j + 1;
        }
        assert(c.joins_parse()) by {
            assert forall|k: int| 0 <= k < c.join_texts().len() implies (#[trigger] join_of(
                c.join_texts()[k]@,
                c.global_join_type,
            )) is Ok by {
                assert(join_of(texts@[k]@, global_join_type) == Ok::<(Seq<char>, JoinType), ConfigError>(
                    (joins@[k].0@, joins@[k].1)));
            }
        }
        Ok(Statement { create_table, joins, selects })
    }

    /// Checks that there is one join fewer than selects, and that each join
    /// key names a projected column of both selects it joins.
    pub fn validate(&self) -> (r: Result<(), ConfigError>)
        ensures
            !self.wf() ==> r == Err::<(), ConfigError>(
                ConfigError::JoinCountMismatch { selects: self.selects@.len() as usize, joins: self.joins@.len() as usize },
            ),
            self.wf() ==> (r is Ok <==> forall|i: int| 0 <= i < self.joins@.len() ==> #[trigger] self.joinable_at(i)),
            self.wf() && r is Err ==> r->Err_0 is UnjoinableKey,
            self.wf() ==> forall|i: usize|
                r == Err::<(), ConfigError>(ConfigError::UnjoinableKey { index: i }) <==> {
                    &&& i < self.joins@.len()
                    &&& !self.joinable_at(i as int)
                    &&& forall|k: int| 0 <= k < i ==> #[trigger] self.joinable_at(k)
                },
    {
        if self.joins.len() >= self.selects.len() || self.joins.len() + 1 != self.selects.len() {
            return Err(ConfigError::JoinCountMismatch { selects: self.selects.len(), joins: self.joins.len() });
        }
        let mut i: usize = 0;
        while i < self.joins.len()
            invariant
                self.wf(),
                i <= self.joins@.len(),
                forall|k: int| 0 <= k < i ==> #[trigger] self.joinable_at(k),
            decreases self.joins@.len() - i,
        {
            let key = &self.joins[i].0;
            let left = self.selects[i].aliased_projections();
            let right = self.selects[i + 1].aliased_projections();
            if !contains_name(&left, key) || !contains_name(&right, key) {
                assert(!self.joinable_at(i as int));
                return Err(ConfigError::UnjoinableKey { index: i });
            }
            i = i + 1;
        }
        Ok(())
    }
}

/// Whether `key` is one of `names`.
pub(crate) fn contains_name(names: &Vec<String>, key: &String) -> (r: bool)
    ensures
        r == names.deep_view().contains(key@),
{
    let mut i: usize = 0;
    while i < names.len()
        invariant
            i <= names@.len(),
            forall|k: int| 0 <= k < i ==> names@[k]@ != key@,
        decreases names@.len() - i,
    {
        if names[i] == *key {
            assert(names.deep_view()[i as int] == key@);
            return true;
        }
        i = i + 1;
    }
    assert(!names.deep_view().contains(key@)) by {
        if names.deep_view().contains(key@) {
            let k = choose|k: int| 0 <= k < names.deep_view().len() && names.deep_view()[k] == key@;
            assert(names@[k]@ == key@);
        }
    }
    false
}

} // verus!
