use dblp::dataset::db_items::{AssociatedAuthorYear, DblpRecord, PersonRecord, PublicationRecord};
use dblp::db::{
    author_publications_query, clear_tables_statements, create_all_indexes_statements,
    create_tables_statements, person_from_row, person_params, person_query, publication_from_row,
    publication_params, publication_query, relation_rows_query, Query, SqlValue, INSERT_PERSON,
    INSERT_PUBLICATION,
};
use rusqlite::types::{Value, ValueRef};
use rusqlite::Connection;

fn bound(values: &[SqlValue]) -> Vec<Value> {
    values
        .iter()
        .map(|v| match v {
            SqlValue::Null => Value::Null,
            SqlValue::Integer(n) => Value::Integer(*n as i64),
            SqlValue::Text(t) => Value::Text(t.clone()),
        })
        .collect()
}

fn columns(row: &rusqlite::Row, count: usize) -> Vec<SqlValue> {
    (0..count)
        .map(|i| match row.get_ref(i).unwrap() {
            ValueRef::Integer(n) => SqlValue::Integer(n as u32),
            ValueRef::Text(t) => SqlValue::Text(String::from_utf8(t.to_vec()).unwrap()),
            _ => SqlValue::Null,
        })
        .collect()
}

fn run(conn: &Connection, query: &Query, count: usize) -> Vec<Vec<SqlValue>> {
    let mut stmt = conn.prepare(&query.sql).unwrap();
    let rows = stmt
        .query_map(rusqlite::params_from_iter(bound(&query.params)), |r| Ok(columns(r, count)))
        .unwrap();
    rows.map(|r| r.unwrap()).collect()
}

fn publication(key: &str, year: u32, authors: &str) -> DblpRecord {
    DblpRecord {
        id: 0,
        record: PublicationRecord::Article,
        key: key.to_string(),
        mdate: None,
        publtype: None,
        year: Some(year),
        authors: Some(authors.to_string()),
        citations: None,
        publisher: None,
        school: None,
    }
}

fn store(publications: &[DblpRecord], persons: &[PersonRecord]) -> Connection {
    let conn = Connection::open_in_memory().unwrap();
    for statement in clear_tables_statements() {
        conn.execute(statement, ()).unwrap();
    }
    for statement in create_tables_statements() {
        conn.execute(statement, ()).unwrap();
    }
    for p in publications {
        conn.execute(INSERT_PUBLICATION, rusqlite::params_from_iter(bound(&publication_params(p))))
            .unwrap();
    }
    for p in persons {
        conn.execute(INSERT_PERSON, rusqlite::params_from_iter(bound(&person_params(p)))).unwrap();
    }
    for statement in create_all_indexes_statements() {
        conn.execute(statement, ()).unwrap();
    }
    conn
}

fn person(name: &str, profile: &str) -> PersonRecord {
    PersonRecord {
        id: 0,
        name: name.to_string(),
        profile: profile.to_string(),
        aliases: String::new(),
    }
}

#[test]
fn author_publications_query_finds_whole_names() {
    let conn = store(
        &[
            publication("first", 2000, "::Jane::Bob::"),
            publication("second", 2005, "::John::"),
            publication("third", 2010, "::Al::Jane::"),
            publication("fourth", 2011, "::Janet::"),
        ],
        &[],
    );
    let found: Vec<DblpRecord> = run(&conn, &author_publications_query("Jane", None, None), 10)
        .iter()
        .map(|c| publication_from_row(c).unwrap())
        .collect();
    let keys: Vec<&str> = found.iter().map(|p| p.key.as_str()).collect();
    assert_eq!(keys, vec!["first", "third"]);
    assert_eq!(found[0].year, Some(2000));
    assert_eq!(found[0].authors, Some("::Jane::Bob::".to_string()));

    let early = run(&conn, &author_publications_query("Jane", Some(2005), None), 10);
    assert_eq!(early.len(), 1);
    let limited = run(&conn, &author_publications_query("Jane", None, Some(1)), 10);
    assert_eq!(limited.len(), 1);
    let by_key = run(&conn, &publication_query("second", None), 10);
    assert_eq!(by_key.len(), 1);
    assert_eq!(publication_from_row(&by_key[0]).unwrap().authors, Some("::John::".to_string()));
}

#[test]
fn person_queries_find_by_name_and_serial() {
    let conn = store(
        &[],
        &[
            person("John Doe", "h/1"),
            person("John Doe 0001", "h/2"),
            person("John Michael Doe", "h/3"),
            person("Jane Roe", "h/4"),
        ],
    );
    let exact: Vec<PersonRecord> = run(&conn, &person_query("John Doe", true, None), 4)
        .iter()
        .map(|c| person_from_row(c).unwrap())
        .collect();
    assert_eq!(exact.len(), 1);
    assert_eq!(exact[0].profile, "h/1");
    let loose = run(&conn, &person_query("john doe", false, None), 4);
    assert_eq!(loose.len(), 3);
}

#[test]
fn profile_is_unique_once_the_indexes_stand() {
    let conn = store(&[], &[person("A", "h/1")]);
    let again = conn.execute(
        INSERT_PERSON,
        rusqlite::params_from_iter(bound(&person_params(&person("B", "h/1")))),
    );
    assert!(again.is_err());
}

#[test]
fn relation_rows_feed_the_expansion() {
    let conn = store(
        &[
            publication("first", 2000, "::A::B::"),
            publication("second", 2001, "::A::C::"),
            publication("third", 2002, "::A::B::D::"),
            publication("fourth", 2001, "::X::Y::"),
        ],
        &[person("A", "h/a")],
    );
    let a = person_from_row(&run(&conn, &person_query("A", true, None), 4)[0]).unwrap();
    let rows: Vec<AssociatedAuthorYear> = run(&conn, &relation_rows_query(a.id, 2000, 2002), 2)
        .iter()
        .map(|c| match (&c[0], &c[1]) {
            (SqlValue::Integer(year), SqlValue::Text(authors)) => {
                AssociatedAuthorYear { year: *year, authors: authors.clone() }
            }
            _ => unreachable!(),
        })
        .collect();
    assert_eq!(rows.len(), 3);
    let rel = a.to_relations(2000, 2002, &rows);
    let names = |items: &[&str]| items.iter().map(|s| s.to_string()).collect::<Vec<String>>();
    assert_eq!(
        rel.coauthor_years,
        vec![names(&["B"]), names(&["B", "C"]), names(&["B", "C", "D"])]
    );
}

#[test]
fn test_init_database() {
    let conn = r2d2_sqlite::SqliteConnectionManager::memory();
    let pool = r2d2::Pool::new(conn).unwrap();
    let c = pool.get().unwrap();

    for statement in create_tables_statements() {
        c.execute(statement, ()).unwrap();
    }
}

#[test]
fn clearing_an_empty_store_is_no_error() {
    let conn = Connection::open_in_memory().unwrap();
    for statement in clear_tables_statements() {
        conn.execute(statement, ()).unwrap();
    }
    for statement in dblp::db::check_database_statements() {
        assert!(conn.prepare(statement).is_err());
    }
    for statement in create_tables_statements() {
        conn.execute(statement, ()).unwrap();
    }
    for statement in dblp::db::check_database_statements() {
        assert!(conn.prepare(statement).is_ok());
    }
}
