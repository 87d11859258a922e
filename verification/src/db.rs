//! The statements that the store is created, filled and queried with, and
//! the values that go into them and come out of them.

use crate::bag::separator;
use crate::calendar::text_of;
use crate::dataset::db_items::{DblpRecord, PersonRecord, PublicationRecord};
use crate::text::{chars_of, string_of, uppercase, uppercase_of, whitespace};
use vstd::prelude::*;
use vstd::string::*;

verus! {

pub const CREATE_PERSONS: &'static str =
    "CREATE TABLE IF NOT EXISTS persons(
            id INTEGER PRIMARY KEY,
            name TEXT NOT NULL,
            profile TEXT NOT NULL,
            aliases TEXT NOT NULL
        )";

pub const CREATE_PUBLICATIONS: &'static str =
    "CREATE TABLE IF NOT EXISTS publications(
            id INTEGER PRIMARY KEY,
            record TEXT NOT NULL,
            key TEXT NOT NULL,
            mdate TEXT,
            publtype TEXT,
            year INTEGER,
            authors TEXT,
            citations TEXT,
            publisher TEXT,
            school TEXT
        )";

pub const CREATE_INDEX_PROFILE: &'static str =
    "CREATE UNIQUE INDEX IF NOT EXISTS idx_profile ON persons(profile)";

pub const CREATE_INDEX_YEAR: &'static str =
    "CREATE INDEX IF NOT EXISTS idx_year ON publications(year)";

pub const CREATE_INDEX_AUTHORS: &'static str =
    "CREATE INDEX IF NOT EXISTS idx_authors ON publications(authors)";

pub const CREATE_INDEX_CITATIONS: &'static str =
    "CREATE INDEX IF NOT EXISTS idx_citations ON publications(citations)";

pub const CREATE_INDEX_AUTHOR_NAME: &'static str =
    "CREATE INDEX IF NOT EXISTS idx_author_name ON persons(name)";

pub const DROP_PERSONS: &'static str = "DROP TABLE IF EXISTS persons";

pub const DROP_PUBLICATIONS: &'static str = "DROP TABLE IF EXISTS publications";

pub const DROP_INDEX_PROFILE: &'static str = "DROP INDEX IF EXISTS idx_profile";

pub const DROP_INDEX_YEAR: &'static str = "DROP INDEX IF EXISTS idx_year";

pub const DROP_INDEX_AUTHORS: &'static str = "DROP INDEX IF EXISTS idx_authors";

pub const DROP_INDEX_CITATIONS: &'static str = "DROP INDEX IF EXISTS idx_citations";

pub const DROP_INDEX_AUTHOR_NAME: &'static str = "DROP INDEX IF EXISTS idx_author_name";

pub const CHECK_PERSONS: &'static str = "SELECT COUNT(name) from persons;";

pub const CHECK_PUBLICATIONS: &'static str = "SELECT COUNT(record) from publications;";

pub const INSERT_PUBLICATION: &'static str =
    "INSERT INTO publications
    (record, key, mdate, publtype, year, authors, citations, publisher, school)
    VALUES (?, ?, ?, ?, ?, ?, ?, ?, ?)";

pub const INSERT_PERSON: &'static str =
    "INSERT INTO persons (name, profile, aliases) VALUES (?, ?, ?)";

pub const SELECT_RELATION_ROWS: &'static str =
    "
            SELECT publications.year, publications.authors
            FROM persons
            JOIN publications ON publications.authors LIKE '%::' || persons.name  || '::%'
            WHERE publications.year >= ? AND publications.year <= ?
            AND persons.id = ?
            ORDER BY publications.year ASC
        ";

/// The views of a list of statements.
pub open spec fn statement_views(statements: Seq<&'static str>) -> Seq<Seq<char>> {
    Seq::new(statements.len(), |i: int| statements[i]@)
}

/// The statements that create both tables where they are missing.
pub fn create_tables_statements() -> (out: Vec<&'static str>)
    ensures
        statement_views(out@) == seq![CREATE_PERSONS@, CREATE_PUBLICATIONS@],
{
    let mut out: Vec<&'static str> = Vec::new();
    out.push(CREATE_PERSONS);
    out.push(CREATE_PUBLICATIONS);
    assert(statement_views(out@) =~= seq![CREATE_PERSONS@, CREATE_PUBLICATIONS@]);
    out
}

/// The statements that create the indexes, to be run once the tables are
/// filled: the unique index on the profile first.
pub fn create_all_indexes_statements() -> (out: Vec<&'static str>)
    ensures
        statement_views(out@) == seq![
            CREATE_INDEX_PROFILE@,
            CREATE_INDEX_YEAR@,
            CREATE_INDEX_AUTHORS@,
            CREATE_INDEX_CITATIONS@,
            CREATE_INDEX_AUTHOR_NAME@,
        ],
{
    let mut out: Vec<&'static str> = Vec::new();
    out.push(CREATE_INDEX_PROFILE);
    out.push(CREATE_INDEX_YEAR);
    out.push(CREATE_INDEX_AUTHORS);
    out.push(CREATE_INDEX_CITATIONS);
    out.push(CREATE_INDEX_AUTHOR_NAME);
    assert(statement_views(out@) =~= seq![
        CREATE_INDEX_PROFILE@,
        CREATE_INDEX_YEAR@,
        CREATE_INDEX_AUTHORS@,
        CREATE_INDEX_CITATIONS@,
        CREATE_INDEX_AUTHOR_NAME@,
    ]);
    out
}

/// The statements that drop both tables and then all indexes, each only
/// where it exists.
pub fn clear_tables_statements() -> (out: Vec<&'static str>)
    ensures
        statement_views(out@) == seq![
            DROP_PERSONS@,
            DROP_PUBLICATIONS@,
            DROP_INDEX_PROFILE@,
            DROP_INDEX_YEAR@,
            DROP_INDEX_AUTHORS@,
            DROP_INDEX_CITATIONS@,
            DROP_INDEX_AUTHOR_NAME@,
        ],
{
    let mut out: Vec<&'static str> = Vec::new();
    out.push(DROP_PERSONS);
    out.push(DROP_PUBLICATIONS);
    out.push(DROP_INDEX_PROFILE);
    out.push(DROP_INDEX_YEAR);
    out.push(DROP_INDEX_AUTHORS);
    out.push(DROP_INDEX_CITATIONS);
    out.push(DROP_INDEX_AUTHOR_NAME);
    assert(statement_views(out@) =~= seq![
        DROP_PERSONS@,
        DROP_PUBLICATIONS@,
        DROP_INDEX_PROFILE@,
        DROP_INDEX_YEAR@,
        DROP_INDEX_AUTHORS@,
        DROP_INDEX_CITATIONS@,
        DROP_INDEX_AUTHOR_NAME@,
    ]);
    out
}

/// The statements that probe for both tables.
pub fn check_database_statements() -> (out: Vec<&'static str>)
    ensures
        statement_views(out@) == seq![CHECK_PERSONS@, CHECK_PUBLICATIONS@],
{
    let mut out: Vec<&'static str> = Vec::new();
    out.push(CHECK_PERSONS);
    out.push(CHECK_PUBLICATIONS);
    assert(statement_views(out@) =~= seq![CHECK_PERSONS@, CHECK_PUBLICATIONS@]);
    out
}

/// A value bound to a parameter of a statement, or read from a column.
#[derive(Clone, Debug)]
pub enum SqlValue {
    Null,
    Integer(u32),
    Text(String),
}

/// What a value holds.
pub enum SqlValueView {
    Null,
    Integer(u32),
    Text(Seq<char>),
}

impl View for SqlValue {
    type V = SqlValueView;

    open spec fn view(&self) -> SqlValueView {
        match self {
            SqlValue::Null => SqlValueView::Null,
            SqlValue::Integer(n) => SqlValueView::Integer(*n),
            SqlValue::Text(s) => SqlValueView::Text(s@),
        }
    }
}

/// The views of a list of values.
pub open spec fn value_views(values: Seq<SqlValue>) -> Seq<SqlValueView> {
    Seq::new(values.len(), |i: int| values[i]@)
}

/// A statement with the values to bind to its parameters, in order.
#[derive(Debug)]
pub struct Query {
    pub sql: String,
    pub params: Vec<SqlValue>,
}

/// What a query holds.
pub struct QueryView {
    pub sql: Seq<char>,
    pub params: Seq<SqlValueView>,
}

impl View for Query {
    type V = QueryView;

    open spec fn view(&self) -> QueryView {
        QueryView { sql: self.sql@, params: value_views(self.params@) }
    }
}

/// The value for an optional text: the text, or null.
pub open spec fn optional_text(s: Option<Seq<char>>) -> SqlValueView {
    match s {
        Some(t) => SqlValueView::Text(t),
        None => SqlValueView::Null,
    }
}

/// The value for an optional number: the number, or null.
pub open spec fn optional_integer(n: Option<u32>) -> SqlValueView {
    match n {
        Some(v) => SqlValueView::Integer(v),
        None => SqlValueView::Null,
    }
}

/// The clause that bounds the number of rows, where there is a bound.
pub open spec fn limit_clause(limit: Option<u32>) -> Seq<char> {
    match limit {
        Some(_) => "LIMIT ?"@,
        None => Seq::empty(),
    }
}

/// The parameter for the clause that bounds the number of rows.
pub open spec fn limit_params(limit: Option<u32>) -> Seq<SqlValueView> {
    match limit {
        Some(l) => seq![SqlValueView::Integer(l)],
        None => Seq::empty(),
    }
}

/// The clause that bounds the year, where there is a bound.
pub open spec fn year_clause(max_year: Option<u32>) -> Seq<char> {
    match max_year {
        Some(_) => "AND year <= ? "@,
        None => Seq::empty(),
    }
}

/// The parameter for the clause that bounds the year.
pub open spec fn year_params(max_year: Option<u32>) -> Seq<SqlValueView> {
    match max_year {
        Some(y) => seq![SqlValueView::Integer(y)],
        None => Seq::empty(),
    }
}

/// The pattern that finds `author` as a whole entry of a bag: the name
/// between two separators, anywhere in the text.
pub open spec fn token_pattern(author: Seq<char>) -> Seq<char> {
    seq!['%'] + separator() + author + separator() + seq!['%']
}

/// The pattern that finds `text` anywhere.
pub open spec fn anywhere_pattern(text: Seq<char>) -> Seq<char> {
    seq!['%'] + text + seq!['%']
}

fn optional_text_value(s: &Option<String>) -> (v: SqlValue)
    ensures
        v@ == optional_text(text_of(*s)),
{
    match s {
        Some(t) => SqlValue::Text(t.clone()),
        None => SqlValue::Null,
    }
}

fn optional_integer_value(n: Option<u32>) -> (v: SqlValue)
    ensures
        v@ == optional_integer(n),
{
    match n {
        Some(x) => SqlValue::Integer(x),
        None => SqlValue::Null,
    }
}

fn push_limit(sql: &mut String, params: &mut Vec<SqlValue>, limit: Option<u32>)
    ensures
        final(sql)@ == old(sql)@ + limit_clause(limit),
        value_views(final(params)@) == value_views(old(params)@) + limit_params(limit),
{
    match limit {
        Some(l) => {
            sql.append("LIMIT ?");
            let ghost before = value_views(params@);
            params.push(SqlValue::Integer(l));
            assert(value_views(params@) =~= before + limit_params(limit));
        },
        None => {
            assert(sql@ =~= old(sql)@ + limit_clause(limit));
            assert(value_views(params@) =~= value_views(old(params)@) + limit_params(limit));
        },
    }
}

/// The query for the publications of an author: those whose bag of authors
/// holds `author` as a whole entry, of a year up to `max_year` where one is
/// given, and at most `limit` of them where one is given.
pub fn author_publications_query(author: &str, max_year: Option<u32>, limit: Option<u32>) -> (q:
    Query)
    ensures
        q@.sql == "SELECT * FROM publications WHERE authors LIKE ? "@ + year_clause(max_year)
            + limit_clause(limit),
        q@.params == seq![SqlValueView::Text(token_pattern(author@))] + year_params(max_year)
            + limit_params(limit),
{
    let mut pattern = String::new();
    pattern.push('%');
    pattern.push(':');
    pattern.push(':');
    pattern.append(author);
    pattern.push(':');
    pattern.push(':');
    pattern.push('%');
    assert(pattern@ =~= token_pattern(author@));
    let mut params: Vec<SqlValue> = Vec::new();
    params.push(SqlValue::Text(pattern));
    let mut sql = "SELECT * FROM publications WHERE authors LIKE ? ".to_owned();
    match max_year {
        Some(year) => {
            sql.append("AND year <= ? ");
            params.push(SqlValue::Integer(year));
        },
        None => {},
    }
    assert(sql@ =~= "SELECT * FROM publications WHERE authors LIKE ? "@ + year_clause(max_year));
    assert(value_views(params@) =~= seq![SqlValueView::Text(token_pattern(author@))] + year_params(
        max_year,
    ));
    push_limit(&mut sql, &mut params, limit);
    Query { sql, params }
}

/// The query for a publication by its key.
pub fn publication_query(key: &str, limit: Option<u32>) -> (q: Query)
    ensures
        q@.sql == "SELECT * FROM publications WHERE key = ? "@ + limit_clause(limit),
        q@.params == seq![SqlValueView::Text(key@)] + limit_params(limit),
{
    let mut params: Vec<SqlValue> = Vec::new();
    params.push(SqlValue::Text(key.to_owned()));
    let mut sql = "SELECT * FROM publications WHERE key = ? ".to_owned();
    assert(value_views(params@) =~= seq![SqlValueView::Text(key@)]);
    push_limit(&mut sql, &mut params, limit);
    Query { sql, params }
}

/// The statement that reads the publications that meet `constraints`.
pub fn raw_publications_sql(constraints: &str) -> (sql: String)
    ensures
        sql@ == "SELECT * FROM publications "@ + constraints@ + ";"@,
{
    let mut sql = "SELECT * FROM publications ".to_owned();
    sql.append(constraints);
    sql.append(";");
    sql
}

/// The statement that reads the persons that meet `constraints`.
pub fn raw_persons_sql(constraints: &str) -> (sql: String)
    ensures
        sql@ == "SELECT * FROM persons "@ + constraints@ + ";"@,
{
    let mut sql = "SELECT * FROM persons ".to_owned();
    sql.append(constraints);
    sql.append(";");
    sql
}

/// The query for the rows of a person's temporal relation: the year and the
/// authors of each of the person's publications of a year from `start` to
/// `end`.
pub fn relation_rows_query(person_id: u32, start: u32, end: u32) -> (q: Query)
    ensures
        q@.sql == SELECT_RELATION_ROWS@,
        q@.params == seq![
            SqlValueView::Integer(start),
            SqlValueView::Integer(end),
            SqlValueView::Integer(person_id),
        ],
{
    let mut params: Vec<SqlValue> = Vec::new();
    params.push(SqlValue::Integer(start));
    params.push(SqlValue::Integer(end));
    params.push(SqlValue::Integer(person_id));
    assert(value_views(params@) =~= seq![
        SqlValueView::Integer(start),
        SqlValueView::Integer(end),
        SqlValueView::Integer(person_id),
    ]);
    Query { sql: SELECT_RELATION_ROWS.to_owned(), params }
}

/// The values that a publication is inserted with, in the order of
/// `INSERT_PUBLICATION`.
pub fn publication_params(publication: &DblpRecord) -> (params: Vec<SqlValue>)
    ensures
        value_views(params@) == seq![
            SqlValueView::Text(publication@.record.name()),
            SqlValueView::Text(publication@.key),
            optional_text(publication@.mdate),
            optional_text(publication@.publtype),
            optional_integer(publication@.year),
            optional_text(publication@.authors),
            optional_text(publication@.citations),
            optional_text(publication@.publisher),
            optional_text(publication@.school),
        ],
{
    let mut params: Vec<SqlValue> = Vec::new();
    params.push(SqlValue::Text(publication.record.to_string()));
    params.push(SqlValue::Text(publication.key.clone()));
    params.push(optional_text_value(&publication.mdate));
    params.push(optional_text_value(&publication.publtype));
    params.push(optional_integer_value(publication.year));
    params.push(optional_text_value(&publication.authors));
    params.push(optional_text_value(&publication.citations));
    params.push(optional_text_value(&publication.publisher));
    params.push(optional_text_value(&publication.school));
    assert(value_views(params@) =~= seq![
        SqlValueView::Text(publication@.record.name()),
        SqlValueView::Text(publication@.key),
        optional_text(publication@.mdate),
        optional_text(publication@.publtype),
        optional_integer(publication@.year),
        optional_text(publication@.authors),
        optional_text(publication@.citations),
        optional_text(publication@.publisher),
        optional_text(publication@.school),
    ]);
    params
}

/// The values that a person is inserted with, in the order of
/// `INSERT_PERSON`.
pub fn person_params(person: &PersonRecord) -> (params: Vec<SqlValue>)
    ensures
        value_views(params@) == seq![
            SqlValueView::Text(person@.name),
            SqlValueView::Text(person@.profile),
            SqlValueView::Text(person@.aliases),
        ],
{
    let mut params: Vec<SqlValue> = Vec::new();
    params.push(SqlValue::Text(person.name.clone()));
    params.push(SqlValue::Text(person.profile.clone()));
    params.push(SqlValue::Text(person.aliases.clone()));
    assert(value_views(params@) =~= seq![
        SqlValueView::Text(person@.name),
        SqlValueView::Text(person@.profile),
        SqlValueView::Text(person@.aliases),
    ]);
    params
}

/// The end of the word of `s` that starts at `from`: the position of the
/// first whitespace at or after `from`, or the length of `s`.
pub open spec fn word_end(s: Seq<char>, from: int) -> int
    decreases s.len() - from,
{
    if from < 0 || from >= s.len() {
        s.len() as int
    } else if whitespace(s[from]) {
        from
    } else {
        word_end(s, from + 1)
    }
}

/// The words of `s`: the longest runs of characters that are not
/// whitespace, in order.
pub open spec fn words(s: Seq<char>) -> Seq<Seq<char>>
    decreases s.len(),
{
    if s.len() == 0 {
        Seq::empty()
    } else if whitespace(s[0]) {
        words(s.drop_first())
    } else {
        let end = word_end(s, 0);
        if 0 < end <= s.len() {
            seq![s.subrange(0, end)] + words(s.subrange(end, s.len() as int))
        } else {
            seq![s]
        }
    }
}

/// `word` with its first character in uppercase.
pub open spec fn capitalized(word: Seq<char>) -> Seq<char> {
    if word.len() == 0 {
        word
    } else {
        uppercase(word[0]) + word.drop_first()
    }
}

/// The first `upto` words, each capitalized, with `%` between them.
pub open spec fn joined_capitalized(parts: Seq<Seq<char>>, upto: int) -> Seq<char>
    decreases upto,
{
    if upto <= 0 {
        Seq::empty()
    } else if upto == 1 {
        capitalized(parts[0])
    } else {
        joined_capitalized(parts, upto - 1) + seq!['%'] + capitalized(parts[upto - 1])
    }
}

/// The pattern for a name: its words, each capitalized, with the wildcard
/// `%` in place of the whitespace between them.
pub open spec fn wildcard_pattern(input: Seq<char>) -> Seq<char> {
    joined_capitalized(words(input), words(input).len() as int)
}

/// The word that starts at `from` ends at `at` when no whitespace stands
/// between them and `at` is whitespace or the end.
pub proof fn lemma_word_end(s: Seq<char>, from: int, at: int)
    requires
        0 <= from <= at <= s.len(),
        forall|k: int| from <= k < at ==> !whitespace(s[k]),
        at == s.len() || whitespace(s[at]),
    ensures
        word_end(s, from) == at,
    decreases at - from,
{
    if from < at {
        lemma_word_end(s, from + 1, at);
    }
}

/// The views of a list of words.
pub open spec fn word_views(v: Seq<Vec<char>>) -> Seq<Seq<char>> {
    Seq::new(v.len(), |i: int| v[i]@)
}

/// The words of `input`.
pub fn split_words(input: &str) -> (out: Vec<Vec<char>>)
    ensures
        word_views(out@) == words(input@),
{
    let text = chars_of(input);
    let n = text.len();
    let mut out: Vec<Vec<char>> = Vec::new();
    let mut i: usize = 0;
    proof {
        assert(text@.subrange(0, n as int) =~= text@);
        assert(word_views(out@) + words(text@) =~= words(text@));
    }
    while i < n
        invariant
            n == text.len(),
            i <= n,
            words(text@) == word_views(out@) + words(text@.subrange(i as int, n as int)),
        decreases n - i,
    {
        let ghost rest = text@.subrange(i as int, n as int);
        if text[i].is_whitespace() {
            assert(rest.drop_first() =~= text@.subrange(i + 1, n as int));
            i += 1;
        } else {
            let mut word: Vec<char> = Vec::new();
            let mut j: usize = i;
            while j < n && !text[j].is_whitespace()
                invariant
                    n == text.len(),
                    i <= j <= n,
                    word@ == text@.subrange(i as int, j as int),
                    forall|k: int| i <= k < j ==> !whitespace(text@[k]),
                decreases n - j,
            {
                word.push(text[j]);
                j += 1;
            }
            proof {
                let at = j - i;
                assert forall|k: int| 0 <= k < at implies !whitespace(rest[k]) by {
                    assert(rest[k] == text@[i + k]);
                }
                lemma_word_end(rest, 0, at);
                assert(rest.subrange(0, at) =~= word@);
                assert(rest.subrange(at, rest.len() as int) =~= text@.subrange(j as int, n as int));
                if at == rest.len() {
                    assert(rest.subrange(0, at) =~= rest);
                    assert(words(text@.subrange(j as int, n as int)) =~= Seq::<Seq<char>>::empty());
                }
            }
            let ghost before = word_views(out@);
            out.push(word);
            assert(word_views(out@) =~= before.push(rest.subrange(0, j - i)));
            i = j;
        }
    }
    assert(words(text@.subrange(n as int, n as int)) =~= Seq::<Seq<char>>::empty());
    out
}

/// Capitalize the first letter of each word of a name and put the wildcard
/// `%` in place of the whitespace between the words.
pub fn capitalize_wildcard(input: &str) -> (out: String)
    ensures
        out@ == wildcard_pattern(input@),
{
    let parts = split_words(input);
    let mut buf: Vec<char> = Vec::new();
    let mut i: usize = 0;
    let ghost all = word_views(parts@);
    while i < parts.len()
        invariant
            i <= parts.len(),
            all == word_views(parts@),
            buf@ == joined_capitalized(all, i as int),
        decreases parts.len() - i,
    {
        let ghost before = buf@;
        if i > 0 {
            buf.push('%');
        }
        let word = &parts[i];
        assert(word@ == all[i as int]);
        if word.len() > 0 {
            let mut upper = uppercase_of(word[0]);
            buf.append(&mut upper);
            let mut k: usize = 1;
            let ghost head = buf@;
            while k < word.len()
                invariant
                    1 <= k <= word.len(),
                    buf@ == head + word@.subrange(1, k as int),
                decreases word.len() - k,
            {
                buf.push(word[k]);
                k += 1;
            }
            assert(word@.subrange(1, word.len() as int) =~= word@.drop_first());
        }
        assert(buf@ =~= joined_capitalized(all, i + 1));
        i += 1;
    }
    string_of(&buf)
}

/// The pattern for a name with a serial number: the pattern, a space, and
/// four characters of any kind.
pub open spec fn serial_pattern(pattern: Seq<char>) -> Seq<char> {
    pattern + " ____"@
}

/// The first query for a person.
///
/// An exact search compares the name as it is, and takes no limit. Any
/// other search compares the name with the wildcard pattern of `author`,
/// alone or followed by a serial number.
pub fn person_query(author: &str, exact: bool, limit: Option<u32>) -> (q: Query)
    ensures
        exact ==> q@.sql == "SELECT * FROM persons WHERE name = ?"@ && q@.params == seq![
            SqlValueView::Text(author@),
        ],
        !exact ==> q@.sql == "SELECT * FROM persons WHERE name LIKE ? OR name LIKE ? "@
            + limit_clause(limit) && q@.params == seq![
            SqlValueView::Text(wildcard_pattern(author@)),
            SqlValueView::Text(serial_pattern(wildcard_pattern(author@))),
        ] + limit_params(limit),
{
    let mut params: Vec<SqlValue> = Vec::new();
    if exact {
        params.push(SqlValue::Text(author.to_owned()));
        assert(value_views(params@) =~= seq![SqlValueView::Text(author@)]);
        return Query { sql: "SELECT * FROM persons WHERE name = ?".to_owned(), params };
    }
    let pattern = capitalize_wildcard(author);
    let mut with_serial = pattern.clone();
    with_serial.append(" ____");
    params.push(SqlValue::Text(pattern));
    params.push(SqlValue::Text(with_serial));
    assert(value_views(params@) =~= seq![
        SqlValueView::Text(wildcard_pattern(author@)),
        SqlValueView::Text(serial_pattern(wildcard_pattern(author@))),
    ]);
    let mut sql = "SELECT * FROM persons WHERE name LIKE ? OR name LIKE ? ".to_owned();
    push_limit(&mut sql, &mut params, limit);
    Query { sql, params }
}

/// Whether the search for a person goes on to the aliases: it does where
/// the search is not exact and the first query found nobody.
pub fn needs_alias_query(exact: bool, found: usize) -> (r: bool)
    ensures
        r == (!exact && found == 0),
{
    !exact && found == 0
}

/// The query for a person by an alias: `author` anywhere in the bag of
/// aliases.
pub fn alias_query(author: &str, limit: Option<u32>) -> (q: Query)
    ensures
        q@.sql == "SELECT * FROM persons WHERE aliases LIKE ? "@ + limit_clause(limit),
        q@.params == seq![SqlValueView::Text(anywhere_pattern(author@))] + limit_params(limit),
{
    let mut pattern = String::new();
    pattern.push('%');
    pattern.append(author);
    pattern.push('%');
    assert(pattern@ =~= anywhere_pattern(author@));
    let mut params: Vec<SqlValue> = Vec::new();
    params.push(SqlValue::Text(pattern));
    assert(value_views(params@) =~= seq![SqlValueView::Text(anywhere_pattern(author@))]);
    let mut sql = "SELECT * FROM persons WHERE aliases LIKE ? ".to_owned();
    push_limit(&mut sql, &mut params, limit);
    Query { sql, params }
}

/// The text that a value holds, if it holds one.
pub open spec fn text_in(value: SqlValueView) -> Option<Seq<char>> {
    match value {
        SqlValueView::Text(t) => Some(t),
        _ => None,
    }
}

/// The number that a value holds, if it holds one.
pub open spec fn integer_in(value: SqlValueView) -> Option<u32> {
    match value {
        SqlValueView::Integer(v) => Some(v),
        _ => None,
    }
}

/// The text of a column, where the column holds one.
pub fn column_text(value: &SqlValue) -> (text: Option<String>)
    ensures
        text_of(text) == text_in(value@),
{
    match value {
        SqlValue::Text(t) => Some(t.clone()),
        _ => None,
    }
}

/// The number of a column, where the column holds one.
pub fn column_integer(value: &SqlValue) -> (n: Option<u32>)
    ensures
        n == integer_in(value@),
{
    match value {
        SqlValue::Integer(v) => Some(*v),
        _ => None,
    }
}

/// Whether the columns are those of a publication row: ten of them, the
/// first a number, the second the name of a kind, the third a text.
pub open spec fn is_publication_row(columns: Seq<SqlValueView>) -> bool {
    &&& columns.len() == 10
    &&& columns[0] is Integer
    &&& columns[1] is Text
    &&& exists|k: PublicationRecord| k.name() == columns[1]->Text_0
    &&& columns[2] is Text
}

/// Read a publication from the columns of `SELECT *`, by position. A
/// column after the third that does not hold what is expected there reads
/// as absent.
pub fn publication_from_row(columns: &Vec<SqlValue>) -> (row: Option<DblpRecord>)
    ensures
        row is Some <==> is_publication_row(value_views(columns@)),
        row matches Some(r) ==> {
            let values = value_views(columns@);
            &&& SqlValueView::Integer(r@.id) == values[0]
            &&& SqlValueView::Text(r@.record.name()) == values[1]
            &&& SqlValueView::Text(r@.key) == values[2]
            &&& r@.mdate == text_in(values[3])
            &&& r@.publtype == text_in(values[4])
            &&& r@.year == integer_in(values[5])
            &&& r@.authors == text_in(values[6])
            &&& r@.citations == text_in(values[7])
            &&& r@.publisher == text_in(values[8])
            &&& r@.school == text_in(values[9])
        },
{
    if columns.len() != 10 {
        return None;
    }
    let ghost views = value_views(columns@);
    assert(forall|i: int| 0 <= i < 10 ==> views[i] == columns@[i]@);
    let id = match column_integer(&columns[0]) {
        Some(id) => id,
        None => { return None; },
    };
    let kind_name = match column_text(&columns[1]) {
        Some(name) => name,
        None => { return None; },
    };
    let record = match PublicationRecord::from_str(kind_name.as_str()) {
        Ok(kind) => kind,
        Err(_) => { return None; },
    };
    let key = match column_text(&columns[2]) {
        Some(key) => key,
        None => { return None; },
    };
    Some(
        (DblpRecord {
            id,
            record,
            key,
            mdate: column_text(&columns[3]),
            publtype: column_text(&columns[4]),
            year: column_integer(&columns[5]),
            authors: column_text(&columns[6]),
            citations: column_text(&columns[7]),
            publisher: column_text(&columns[8]),
            school: column_text(&columns[9]),
        }),
    )
}

/// Whether the columns are those of a person row: a number and three texts.
pub open spec fn is_person_row(columns: Seq<SqlValueView>) -> bool {
    &&& columns.len() == 4
    &&& columns[0] is Integer
    &&& columns[1] is Text
    &&& columns[2] is Text
    &&& columns[3] is Text
}

/// Read a person from the columns of `SELECT *`, by position.
pub fn person_from_row(columns: &Vec<SqlValue>) -> (row: Option<PersonRecord>)
    ensures
        row is Some <==> is_person_row(value_views(columns@)),
        row matches Some(r) ==> value_views(columns@) == seq![
            SqlValueView::Integer(r@.id),
            SqlValueView::Text(r@.name),
            SqlValueView::Text(r@.profile),
            SqlValueView::Text(r@.aliases),
        ],
{
    if columns.len() != 4 {
        return None;
    }
    let ghost views = value_views(columns@);
    assert(forall|i: int| 0 <= i < 4 ==> views[i] == columns@[i]@);
    let id = match column_integer(&columns[0]) {
        Some(id) => id,
        None => { return None; },
    };
    let name = match column_text(&columns[1]) {
        Some(t) => t,
        None => { return None; },
    };
    let profile = match column_text(&columns[2]) {
        Some(t) => t,
        None => { return None; },
    };
    let aliases = match column_text(&columns[3]) {
        Some(t) => t,
        None => { return None; },
    };
    let row = PersonRecord { id, name, profile, aliases };
    assert(views =~= seq![
        SqlValueView::Integer(row@.id),
        SqlValueView::Text(row@.name),
        SqlValueView::Text(row@.profile),
        SqlValueView::Text(row@.aliases),
    ]);
    Some(row)
}

} // verus!
