use dblp::dataset::db_items::{has_alphabetic, DblpRecord, PersonRecord, PublicationRecord};
use dblp::dataset::xml_items::{
    Article, Author, Book, Data, Date, InCollection, InProceeding, MastersThesis, PhdThesis,
    Proceeding, RawDblp, WebPage,
};

fn author(name: &str) -> Author {
    Author { name: name.to_string(), aux: None, bibtex: None, orcid: None, label: None }
}

fn record(key: &str, authors: &[&str]) -> dblp::dataset::xml_items::PublicationRecord {
    dblp::dataset::xml_items::PublicationRecord {
        key: key.to_string(),
        mdate: None,
        publtype: None,
        year: None,
        authors: authors.iter().map(|a| author(a)).collect(),
        relation: None,
        school: Vec::new(),
        publisher: Vec::new(),
        citations: Vec::new(),
    }
}

fn page(key: &str, title: &[&str], authors: &[&str]) -> WebPage {
    WebPage {
        key: key.to_string(),
        title: title.iter().map(|s| s.to_string()).collect(),
        url: Vec::new(),
        author: authors.iter().map(|s| s.to_string()).collect(),
    }
}

fn empty_document() -> RawDblp {
    RawDblp {
        articles: Vec::new(),
        inproceedings: Vec::new(),
        proceedings: Vec::new(),
        books: Vec::new(),
        incollections: Vec::new(),
        phd_theses: Vec::new(),
        masters_theses: Vec::new(),
        data: Vec::new(),
        web_pages: Vec::new(),
        mdate: None,
    }
}

#[test]
fn flattener_bag() {
    let article = Article(record("journals/x/1", &["A. One", "B. Two"]));
    let row = DblpRecord::try_from(&article).unwrap();
    assert_eq!(row.authors, Some("::A. One::B. Two::".to_string()));
    assert_eq!(row.record, PublicationRecord::Article);
    assert_eq!(row.key, "journals/x/1");
    assert_eq!(row.id, 0);
    assert_eq!(row.authors(), Some(vec!["A. One".to_string(), "B. Two".to_string()]));
}

#[test]
fn publication_without_lists_has_absent_columns() {
    let row = DblpRecord::from_publication(PublicationRecord::Book, &record("books/1", &[]));
    assert_eq!(row.authors, None);
    assert_eq!(row.citations, None);
    assert_eq!(row.publisher, None);
    assert_eq!(row.school, None);
    assert_eq!(row.mdate, None);
    assert_eq!(row.publtype, None);
    assert_eq!(row.year, None);
    assert_eq!(row.authors(), None);
}

#[test]
fn projection_copies_and_encodes_every_field() {
    let mut rec = record("reference/crypt/Canteaut11", &["Anne Canteaut"]);
    rec.mdate = Some(Date { year: 2017, month: 7, day: 12 });
    rec.publtype = Some("encyclopedia".to_string());
    rec.year = Some(2011);
    rec.school = vec!["S1".to_string(), "S2".to_string()];
    rec.publisher = vec!["Springer".to_string()];
    rec.citations = vec![
        "conf/crypto/BarkanBK03".to_string(),
        "...".to_string(),
        "".to_string(),
        "journals/joc/BarkanBK08".to_string(),
        "123-456".to_string(),
        "...".to_string(),
    ];
    let row = DblpRecord::from_publication(PublicationRecord::InCollection, &rec);
    assert_eq!(row.record, PublicationRecord::InCollection);
    assert_eq!(row.key, "reference/crypt/Canteaut11");
    assert_eq!(row.mdate, Some("2017-07-12".to_string()));
    assert_eq!(row.publtype, Some("encyclopedia".to_string()));
    assert_eq!(row.year, Some(2011));
    assert_eq!(row.authors, Some("::Anne Canteaut::".to_string()));
    assert_eq!(
        row.citations,
        Some("::conf/crypto/BarkanBK03::journals/joc/BarkanBK08::".to_string())
    );
    assert_eq!(row.publisher, Some("::Springer::".to_string()));
    assert_eq!(row.school, Some("::S1::S2::".to_string()));
}

#[test]
fn citations_that_are_all_dropped_leave_the_column_absent() {
    let mut rec = record("k", &[]);
    rec.citations = vec!["...".to_string(), "".to_string(), "42".to_string()];
    let row = DblpRecord::from_publication(PublicationRecord::Article, &rec);
    assert_eq!(row.citations, None);
}

#[test]
fn a_date_that_does_not_exist_has_no_text() {
    let mut rec = record("k", &[]);
    rec.mdate = Some(Date { year: 2023, month: 2, day: 30 });
    let row = DblpRecord::from_publication(PublicationRecord::Article, &rec);
    assert_eq!(row.mdate, None);
}

#[test]
fn alphabetic_citations() {
    assert!(has_alphabetic("conf/x"));
    assert!(has_alphabetic("...a"));
    assert!(has_alphabetic("\u{e9}"));
    assert!(!has_alphabetic("..."));
    assert!(!has_alphabetic(""));
    assert!(!has_alphabetic("12-34"));
}

#[test]
fn person_filter() {
    let person = PersonRecord::try_from(&page("homepages/x", &["Home Page"], &["Dr X", "X., Dr"]))
        .unwrap();
    assert_eq!(person.name, "Dr X");
    assert_eq!(person.profile, "homepages/x");
    assert_eq!(person.aliases, "::X., Dr::");
    assert_eq!(person.id, 0);
    assert!(PersonRecord::try_from(&page("db/trier", &["Trier DB"], &["Dr X"])).is_err());
}

#[test]
fn person_filter_edge_cases() {
    assert!(PersonRecord::try_from(&page("k", &[], &["A"])).is_err());
    assert!(PersonRecord::try_from(&page("k", &["home page"], &["A"])).is_err());
    assert!(PersonRecord::try_from(&page("k", &["Other", "Home Page"], &["A"])).is_err());
    let second_title = PersonRecord::try_from(&page("k", &["Home Page", "Other"], &["A"])).unwrap();
    assert_eq!(second_title.name, "A");
    assert_eq!(second_title.aliases, "");
    let nameless = PersonRecord::try_from(&page("k2", &["Home Page"], &[])).unwrap();
    assert_eq!(nameless.name, "");
    assert_eq!(nameless.aliases, "");
    assert_eq!(nameless.profile, "k2");
    let many = PersonRecord::try_from(&page("k3", &["Home Page"], &["A", "B", "C"])).unwrap();
    assert_eq!(many.aliases, "::B::C::");
}

#[test]
fn document_is_flattened_in_the_order_of_the_kinds() {
    let mut doc = empty_document();
    doc.web_pages.push(page("homepages/j", &["Home Page"], &["Jane"]));
    doc.web_pages.push(page("db/about", &["About"], &[]));
    doc.web_pages.push(page("homepages/k", &["Home Page"], &["Kim", "K."]));
    doc.data.push(Data(record("d", &[])));
    doc.masters_theses.push(MastersThesis(record("m", &[])));
    doc.phd_theses.push(PhdThesis(record("p", &[])));
    doc.incollections.push(InCollection(record("ic", &[])));
    doc.books.push(Book(record("b", &[])));
    doc.proceedings.push(Proceeding(record("pr", &[])));
    doc.inproceedings.push(InProceeding(record("ip", &[])));
    doc.articles.push(Article(record("a1", &["Jane"])));
    doc.articles.push(Article(record("a2", &["Kim"])));
    let (publications, persons) = doc.into_rows();
    let keys: Vec<&str> = publications.iter().map(|p| p.key.as_str()).collect();
    assert_eq!(keys, vec!["a1", "a2", "ip", "pr", "b", "ic", "p", "m", "d"]);
    let kinds: Vec<PublicationRecord> = publications.iter().map(|p| p.record).collect();
    assert_eq!(
        kinds,
        vec![
            PublicationRecord::Article,
            PublicationRecord::Article,
            PublicationRecord::InProceeding,
            PublicationRecord::Proceeding,
            PublicationRecord::Book,
            PublicationRecord::InCollection,
            PublicationRecord::PhdThesis,
            PublicationRecord::MastersThesis,
            PublicationRecord::Data,
        ]
    );
    let profiles: Vec<&str> = persons.iter().map(|p| p.profile.as_str()).collect();
    assert_eq!(profiles, vec!["homepages/j", "homepages/k"]);
    assert_eq!(persons[1].aliases, "::K.::");
}

#[test]
fn empty_document_gives_no_rows() {
    let (publications, persons) = empty_document().into_rows();
    assert!(publications.is_empty());
    assert!(persons.is_empty());
}

#[test]
fn kinds_are_read_back_from_their_names() {
    let kinds = [
        (PublicationRecord::Article, "article"),
        (PublicationRecord::InProceeding, "inproceeding"),
        (PublicationRecord::Proceeding, "proceeding"),
        (PublicationRecord::InCollection, "incollection"),
        (PublicationRecord::Book, "book"),
        (PublicationRecord::Collection, "collection"),
        (PublicationRecord::PhdThesis, "phdthesis"),
        (PublicationRecord::MastersThesis, "mastersthesis"),
        (PublicationRecord::Data, "data"),
    ];
    for (kind, name) in kinds {
        assert_eq!(kind.to_string(), name);
        assert_eq!(kind.as_str(), name);
        assert_eq!(PublicationRecord::from_str(name), Ok(kind));
    }
    assert_eq!(PublicationRecord::from_str("Article"), Err(()));
    assert_eq!(PublicationRecord::from_str(""), Err(()));
    assert_eq!(PublicationRecord::from_str("www"), Err(()));
}

#[test]
fn rows_are_walked_column_by_column() {
    let mut rec = record("k", &["A"]);
    rec.year = Some(1999);
    let row = DblpRecord::from_publication(PublicationRecord::Proceeding, &rec);
    let mut walk = row.__iter__();
    let pair = |name: &str, value: Option<&str>| {
        Some((name.to_string(), value.map(|v| v.to_string())))
    };
    assert_eq!(walk.__next__(), pair("record", Some("proceeding")));
    assert_eq!(walk.__next__(), pair("key", Some("k")));
    assert_eq!(walk.__next__(), pair("mdate", None));
    assert_eq!(walk.__next__(), pair("publtype", None));
    assert_eq!(walk.__next__(), pair("year", Some("1999")));
    assert_eq!(walk.__next__(), pair("authors", Some("::A::")));
    assert_eq!(walk.__next__(), pair("citations", None));
    assert_eq!(walk.__next__(), pair("publisher", None));
    assert_eq!(walk.__next__(), pair("school", None));
    assert_eq!(walk.__next__(), None);
    assert_eq!(walk.__next__(), None);

    let person = PersonRecord::try_from(&page("h/1", &["Home Page"], &["A", "B"])).unwrap();
    let mut walk = person.__iter__();
    assert_eq!(walk.__next__(), pair("name", Some("A")));
    assert_eq!(walk.__next__(), pair("profile", Some("h/1")));
    assert_eq!(walk.__next__(), pair("aliases", Some("::B::")));
    assert_eq!(walk.__next__(), None);
    assert_eq!(walk.__next__(), None);
    let copy = row.duplicate();
    assert_eq!(copy.key, row.key);
    assert_eq!(copy.authors, row.authors);
    assert_eq!(person.duplicate().aliases, "::B::");
}

#[test]
fn rows_are_shown_with_their_fields() {
    let person = PersonRecord::try_from(&page("h/1", &["Home Page"], &["A", "B"])).unwrap();
    assert_eq!(
        person.__str__(),
        "PersonRecord { id: 0, name: \"A\", profile: \"h/1\", aliases: \"::B::\" }"
    );
    let row = DblpRecord::from_publication(PublicationRecord::Book, &record("b", &[]));
    assert!(row.__str__().starts_with("DblpRecord { id: 0, record: Book, key: \"b\""));
}
