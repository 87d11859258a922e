use dblp::dataset::db_items::{DblpRecord, PersonRecord, PublicationRecord};
use dblp::db::{
    alias_query, author_publications_query, capitalize_wildcard, check_database_statements,
    clear_tables_statements, create_all_indexes_statements, create_tables_statements,
    needs_alias_query, person_from_row, person_params, person_query, publication_from_row,
    publication_params, publication_query, raw_persons_sql, raw_publications_sql,
    relation_rows_query, split_words, SqlValue, SELECT_RELATION_ROWS,
};

fn text(s: &str) -> SqlValue {
    SqlValue::Text(s.to_string())
}

fn shown(values: &[SqlValue]) -> Vec<String> {
    values.iter().map(|v| format!("{:?}", v)).collect()
}

#[test]
fn test_capitalize_wildcard() {
    let input = "john doe";
    let expected = "John%Doe";
    assert_eq!(capitalize_wildcard(input), expected);
}

#[test]
fn wildcard_pattern_edge_cases() {
    assert_eq!(capitalize_wildcard(""), "");
    assert_eq!(capitalize_wildcard("   "), "");
    assert_eq!(capitalize_wildcard("jane"), "Jane");
    assert_eq!(capitalize_wildcard("  jane \t van\n der  berg "), "Jane%Van%Der%Berg");
    assert_eq!(capitalize_wildcard("John DOE"), "John%DOE");
    assert_eq!(capitalize_wildcard("\u{df}eta x"), "SSeta%X");
    assert_eq!(capitalize_wildcard("a\u{a0}b"), "A%B");
    assert_eq!(capitalize_wildcard("a\u{200b}b"), "A\u{200b}b");
    assert_eq!(capitalize_wildcard("a\u{2003}b"), "A%B");
}

#[test]
fn words_are_runs_without_whitespace() {
    let words: Vec<String> = split_words(" ab  c\td ").iter().map(|w| w.iter().collect()).collect();
    assert_eq!(words, vec!["ab", "c", "d"]);
    assert!(split_words("").is_empty());
}

#[test]
fn author_publications_statement() {
    let q = author_publications_query("Jane", None, None);
    assert_eq!(q.sql, "SELECT * FROM publications WHERE authors LIKE ? ");
    assert_eq!(shown(&q.params), shown(&[text("%::Jane::%")]));

    let q = author_publications_query("Jane", Some(2010), None);
    assert_eq!(q.sql, "SELECT * FROM publications WHERE authors LIKE ? AND year <= ? ");
    assert_eq!(shown(&q.params), shown(&[text("%::Jane::%"), SqlValue::Integer(2010)]));

    let q = author_publications_query("Jane", None, Some(5));
    assert_eq!(q.sql, "SELECT * FROM publications WHERE authors LIKE ? LIMIT ?");
    assert_eq!(shown(&q.params), shown(&[text("%::Jane::%"), SqlValue::Integer(5)]));

    let q = author_publications_query("Jane Doe", Some(2010), Some(5));
    assert_eq!(q.sql, "SELECT * FROM publications WHERE authors LIKE ? AND year <= ? LIMIT ?");
    assert_eq!(
        shown(&q.params),
        shown(&[text("%::Jane Doe::%"), SqlValue::Integer(2010), SqlValue::Integer(5)])
    );
}

#[test]
fn person_statements() {
    let exact = person_query("john doe", true, Some(3));
    assert_eq!(exact.sql, "SELECT * FROM persons WHERE name = ?");
    assert_eq!(shown(&exact.params), shown(&[text("john doe")]));

    let loose = person_query("john doe", false, None);
    assert_eq!(loose.sql, "SELECT * FROM persons WHERE name LIKE ? OR name LIKE ? ");
    assert_eq!(shown(&loose.params), shown(&[text("John%Doe"), text("John%Doe ____")]));

    let limited = person_query("john doe", false, Some(3));
    assert_eq!(limited.sql, "SELECT * FROM persons WHERE name LIKE ? OR name LIKE ? LIMIT ?");
    assert_eq!(
        shown(&limited.params),
        shown(&[text("John%Doe"), text("John%Doe ____"), SqlValue::Integer(3)])
    );

    let alias = alias_query("john doe", Some(2));
    assert_eq!(alias.sql, "SELECT * FROM persons WHERE aliases LIKE ? LIMIT ?");
    assert_eq!(shown(&alias.params), shown(&[text("%john doe%"), SqlValue::Integer(2)]));
}

#[test]
fn alias_search_only_after_an_empty_loose_search() {
    assert!(needs_alias_query(false, 0));
    assert!(!needs_alias_query(false, 1));
    assert!(!needs_alias_query(true, 0));
    assert!(!needs_alias_query(true, 4));
}

#[test]
fn publication_statement_matches_the_key() {
    let q = publication_query("journals/x/1", None);
    assert_eq!(q.sql, "SELECT * FROM publications WHERE key = ? ");
    assert_eq!(shown(&q.params), shown(&[text("journals/x/1")]));
    let q = publication_query("journals/x/1", Some(1));
    assert_eq!(q.sql, "SELECT * FROM publications WHERE key = ? LIMIT ?");
    assert_eq!(shown(&q.params), shown(&[text("journals/x/1"), SqlValue::Integer(1)]));
}

#[test]
fn raw_statements_append_the_constraints() {
    assert_eq!(
        raw_publications_sql("WHERE year = 2000"),
        "SELECT * FROM publications WHERE year = 2000;"
    );
    assert_eq!(raw_persons_sql(""), "SELECT * FROM persons ;");
}

#[test]
fn relation_rows_statement_binds_range_then_person() {
    let q = relation_rows_query(7, 2000, 2005);
    assert_eq!(q.sql, SELECT_RELATION_ROWS);
    assert_eq!(
        shown(&q.params),
        shown(&[SqlValue::Integer(2000), SqlValue::Integer(2005), SqlValue::Integer(7)])
    );
}

#[test]
fn schema_statements() {
    let create = create_tables_statements();
    assert_eq!(create.len(), 2);
    assert!(create[0].starts_with("CREATE TABLE IF NOT EXISTS persons("));
    assert!(create[1].starts_with("CREATE TABLE IF NOT EXISTS publications("));
    assert_eq!(
        create_all_indexes_statements(),
        vec![
            "CREATE UNIQUE INDEX IF NOT EXISTS idx_profile ON persons(profile)",
            "CREATE INDEX IF NOT EXISTS idx_year ON publications(year)",
            "CREATE INDEX IF NOT EXISTS idx_authors ON publications(authors)",
            "CREATE INDEX IF NOT EXISTS idx_citations ON publications(citations)",
            "CREATE INDEX IF NOT EXISTS idx_author_name ON persons(name)",
        ]
    );
    assert_eq!(
        clear_tables_statements(),
        vec![
            "DROP TABLE IF EXISTS persons",
            "DROP TABLE IF EXISTS publications",
            "DROP INDEX IF EXISTS idx_profile",
            "DROP INDEX IF EXISTS idx_year",
            "DROP INDEX IF EXISTS idx_authors",
            "DROP INDEX IF EXISTS idx_citations",
            "DROP INDEX IF EXISTS idx_author_name",
        ]
    );
    assert_eq!(
        check_database_statements(),
        vec!["SELECT COUNT(name) from persons;", "SELECT COUNT(record) from publications;"]
    );
}

#[test]
fn rows_are_bound_in_column_order() {
    let publication = DblpRecord {
        id: 9,
        record: PublicationRecord::PhdThesis,
        key: "phd/x".to_string(),
        mdate: Some("2020-01-02".to_string()),
        publtype: None,
        year: Some(2019),
        authors: Some("::A::".to_string()),
        citations: None,
        publisher: None,
        school: Some("::S::".to_string()),
    };
    assert_eq!(
        shown(&publication_params(&publication)),
        shown(&[
            text("phdthesis"),
            text("phd/x"),
            text("2020-01-02"),
            SqlValue::Null,
            SqlValue::Integer(2019),
            text("::A::"),
            SqlValue::Null,
            SqlValue::Null,
            text("::S::"),
        ])
    );
    let person = PersonRecord {
        id: 3,
        name: "Jane".to_string(),
        profile: "homepages/j".to_string(),
        aliases: "::J.::".to_string(),
    };
    assert_eq!(
        shown(&person_params(&person)),
        shown(&[text("Jane"), text("homepages/j"), text("::J.::")])
    );
}

#[test]
fn rows_are_read_by_position() {
    let columns = vec![
        SqlValue::Integer(9),
        text("phdthesis"),
        text("phd/x"),
        text("2020-01-02"),
        SqlValue::Null,
        SqlValue::Integer(2019),
        text("::A::"),
        SqlValue::Null,
        SqlValue::Null,
        text("::S::"),
    ];
    let row = publication_from_row(&columns).unwrap();
    assert_eq!(row.id, 9);
    assert_eq!(row.record, PublicationRecord::PhdThesis);
    assert_eq!(row.key, "phd/x");
    assert_eq!(row.mdate, Some("2020-01-02".to_string()));
    assert_eq!(row.publtype, None);
    assert_eq!(row.year, Some(2019));
    assert_eq!(row.authors, Some("::A::".to_string()));
    assert_eq!(row.citations, None);
    assert_eq!(row.publisher, None);
    assert_eq!(row.school, Some("::S::".to_string()));

    let mut unknown_kind = columns.clone();
    unknown_kind[1] = text("poster");
    assert!(publication_from_row(&unknown_kind).is_none());
    let mut no_key = columns.clone();
    no_key[2] = SqlValue::Null;
    assert!(publication_from_row(&no_key).is_none());
    assert!(publication_from_row(&columns[..9].to_vec()).is_none());

    let person = person_from_row(&vec![
        SqlValue::Integer(3),
        text("Jane"),
        text("homepages/j"),
        text(""),
    ])
    .unwrap();
    assert_eq!(person.id, 3);
    assert_eq!(person.name, "Jane");
    assert_eq!(person.profile, "homepages/j");
    assert_eq!(person.aliases, "");
    assert!(person_from_row(&vec![SqlValue::Integer(3), text("Jane"), text("p")]).is_none());
    assert!(person_from_row(&vec![text("3"), text("Jane"), text("p"), text("")]).is_none());
}
