//! The rows of the relational store, and the projection of the XML records
//! onto them.

use crate::bag::{bag_decode, bag_encode, join_strings, names, split_bag};
use crate::roster::{clone_names, insert_all_except, insert_names, lemma_insert_all_except};
use crate::text::{decimal, decimal_string};
use crate::calendar::{format_date, iso_date_text, text_of};
use crate::dataset::xml_items::{
    author_names, Article, Author, Book, Data, Date, InCollection, InProceeding, MastersThesis,
    PhdThesis, Proceeding, RawDblp, WebPage,
};
use crate::text::{alphabetic, chars_of};
use vstd::prelude::*;

verus! {

/// The kind of a publication.
#[derive(Clone, Copy, Debug, PartialEq, Eq)]
pub enum PublicationRecord {
    Article,
    InProceeding,
    Proceeding,
    InCollection,
    Book,
    Collection,
    PhdThesis,
    MastersThesis,
    Data,
}

impl PublicationRecord {
    /// The name under which the kind is stored.
    pub open spec fn name(self) -> Seq<char> {
        match self {
            PublicationRecord::Article => "article"@,
            PublicationRecord::InProceeding => "inproceeding"@,
            PublicationRecord::Proceeding => "proceeding"@,
            PublicationRecord::InCollection => "incollection"@,
            PublicationRecord::Book => "book"@,
            PublicationRecord::Collection => "collection"@,
            PublicationRecord::PhdThesis => "phdthesis"@,
            PublicationRecord::MastersThesis => "mastersthesis"@,
            PublicationRecord::Data => "data"@,
        }
    }

    /// The name under which the kind is stored.
    pub fn as_str(&self) -> (s: &'static str)
        ensures
            s@ == self.name(),
    {
        match self {
            PublicationRecord::Article => "article",
            PublicationRecord::InProceeding => "inproceeding",
            PublicationRecord::Proceeding => "proceeding",
            PublicationRecord::InCollection => "incollection",
            PublicationRecord::Book => "book",
            PublicationRecord::Collection => "collection",
            PublicationRecord::PhdThesis => "phdthesis",
            PublicationRecord::MastersThesis => "mastersthesis",
            PublicationRecord::Data => "data",
        }
    }

    /// The name under which the kind is stored, as a string of its own.
    pub fn to_string(&self) -> (s: String)
        ensures
            s@ == self.name(),
    {
        self.as_str().to_owned()
    }

    /// The kind that is stored under the name `s`; an error where no kind
    /// has that name.
    pub fn from_str(s: &str) -> (kind: Result<PublicationRecord, ()>)
        ensures
            match kind {
                Ok(k) => k.name() == s@,
                Err(_) => forall|k: PublicationRecord| k.name() != s@,
            },
    {
        let text = s.to_owned();
        if text == "article".to_owned() {
            Ok(PublicationRecord::Article)
        } else if text == "inproceeding".to_owned() {
            Ok(PublicationRecord::InProceeding)
        } else if text == "proceeding".to_owned() {
            Ok(PublicationRecord::Proceeding)
        } else if text == "incollection".to_owned() {
            Ok(PublicationRecord::InCollection)
        } else if text == "book".to_owned() {
            Ok(PublicationRecord::Book)
        } else if text == "collection".to_owned() {
            Ok(PublicationRecord::Collection)
        } else if text == "phdthesis".to_owned() {
            Ok(PublicationRecord::PhdThesis)
        } else if text == "mastersthesis".to_owned() {
            Ok(PublicationRecord::MastersThesis)
        } else if text == "data".to_owned() {
            Ok(PublicationRecord::Data)
        } else {
            Err(())
        }
    }

    /// The length of the kind's name, its first and its third character.
    pub open spec fn name_shape(self) -> (nat, char, char) {
        match self {
            PublicationRecord::Article => (7, 'a', 't'),
            PublicationRecord::InProceeding => (12, 'i', 'p'),
            PublicationRecord::Proceeding => (10, 'p', 'o'),
            PublicationRecord::InCollection => (12, 'i', 'c'),
            PublicationRecord::Book => (4, 'b', 'o'),
            PublicationRecord::Collection => (10, 'c', 'l'),
            PublicationRecord::PhdThesis => (9, 'p', 'd'),
            PublicationRecord::MastersThesis => (13, 'm', 's'),
            PublicationRecord::Data => (4, 'd', 't'),
        }
    }

    pub proof fn lemma_name_shape(self)
        ensures
            self.name_shape() == (self.name().len(), self.name()[0], self.name()[2]),
    {
        reveal_strlit("article");
        reveal_strlit("inproceeding");
        reveal_strlit("proceeding");
        reveal_strlit("incollection");
        reveal_strlit("book");
        reveal_strlit("collection");
        reveal_strlit("phdthesis");
        reveal_strlit("mastersthesis");
        reveal_strlit("data");
    }

    /// No two kinds are stored under the same name, so a kind is read back
    /// from its name.
    pub proof fn lemma_names_differ(a: PublicationRecord, b: PublicationRecord)
        requires
            a.name() == b.name(),
        ensures
            a == b,
    {
        a.lemma_name_shape();
        b.lemma_name_shape();
    }
}

/// One publication, as a row of the store. The lists of the XML record are
/// bag-encoded; a list without entries is absent.
#[derive(Clone, Debug)]
pub struct DblpRecord {
    /// Surrogate key, assigned by the store; 0 before the row is stored.
    pub id: u32,
    pub record: PublicationRecord,
    /// The key of the publication record.
    pub key: String,
    pub mdate: Option<String>,
    pub publtype: Option<String>,
    pub year: Option<u32>,
    /// The names of the authors.
    pub authors: Option<String>,
    /// Other publications referenced by this publication, by their keys.
    pub citations: Option<String>,
    pub publisher: Option<String>,
    pub school: Option<String>,
}

/// What a publication row holds.
pub struct DblpRecordView {
    pub id: u32,
    pub record: PublicationRecord,
    pub key: Seq<char>,
    pub mdate: Option<Seq<char>>,
    pub publtype: Option<Seq<char>>,
    pub year: Option<u32>,
    pub authors: Option<Seq<char>>,
    pub citations: Option<Seq<char>>,
    pub publisher: Option<Seq<char>>,
    pub school: Option<Seq<char>>,
}

impl View for DblpRecord {
    type V = DblpRecordView;

    open spec fn view(&self) -> DblpRecordView {
        DblpRecordView {
            id: self.id,
            record: self.record,
            key: self.key@,
            mdate: text_of(self.mdate),
            publtype: text_of(self.publtype),
            year: self.year,
            authors: text_of(self.authors),
            citations: text_of(self.citations),
            publisher: text_of(self.publisher),
            school: text_of(self.school),
        }
    }
}

/// A single person record. Usually the author of a publication.
#[derive(Clone, Debug)]
pub struct PersonRecord {
    /// Surrogate key, assigned by the store; 0 before the row is stored.
    pub id: u32,
    pub name: String,
    /// Unique across all person records.
    pub profile: String,
    /// Other names the person is known by, bag-encoded.
    pub aliases: String,
}

/// What a person row holds.
pub struct PersonRecordView {
    pub id: u32,
    pub name: Seq<char>,
    pub profile: Seq<char>,
    pub aliases: Seq<char>,
}

impl View for PersonRecord {
    type V = PersonRecordView;

    open spec fn view(&self) -> PersonRecordView {
        PersonRecordView {
            id: self.id,
            name: self.name@,
            profile: self.profile@,
            aliases: self.aliases@,
        }
    }
}

/// The bag encoding of a list, or nothing for the empty list.
pub open spec fn encode_optional(items: Seq<Seq<char>>) -> Option<Seq<char>> {
    if items.len() == 0 {
        None
    } else {
        Some(bag_encode(items))
    }
}

/// Whether a citation is kept: it holds at least one alphabetic character.
pub open spec fn is_citation(c: Seq<char>) -> bool {
    exists|i: int| 0 <= i < c.len() && alphabetic(#[trigger] c[i])
}

/// The citations that are kept, in order.
pub open spec fn kept_citations(citations: Seq<Seq<char>>) -> Seq<Seq<char>> {
    citations.filter(|c: Seq<char>| is_citation(c))
}

/// The text of an optional date.
pub open spec fn date_text(date: Option<Date>) -> Option<Seq<char>> {
    match date {
        Some(d) => iso_date_text(d.year, d.month, d.day),
        None => None,
    }
}

/// The row that a publication record of kind `kind` is projected onto.
pub open spec fn projected(
    kind: PublicationRecord,
    value: crate::dataset::xml_items::PublicationRecord,
) -> DblpRecordView {
    DblpRecordView {
        id: 0,
        record: kind,
        key: value.key@,
        mdate: date_text(value.mdate),
        publtype: text_of(value.publtype),
        year: value.year,
        authors: encode_optional(author_names(value.authors@)),
        citations: encode_optional(kept_citations(names(value.citations@))),
        publisher: encode_optional(names(value.publisher@)),
        school: encode_optional(names(value.school@)),
    }
}

/// Whether a citation holds an alphabetic character.
pub fn has_alphabetic(citation: &str) -> (r: bool)
    ensures
        r == is_citation(citation@),
{
    let text = chars_of(citation);
    let mut i: usize = 0;
    while i < text.len()
        invariant
            i <= text.len(),
            text@ == citation@,
            forall|j: int| 0 <= j < i ==> !alphabetic(#[trigger] text@[j]),
        decreases text.len() - i,
    {
        if text[i].is_alphabetic() {
            return true;
        }
        i += 1;
    }
    false
}

fn clone_optional(s: &Option<String>) -> (out: Option<String>)
    ensures
        text_of(out) == text_of(*s),
{
    match s {
        Some(t) => Some(t.clone()),
        None => None,
    }
}

fn encode_nonempty(items: &Vec<String>) -> (out: Option<String>)
    ensures
        text_of(out) == encode_optional(names(items@)),
{
    if items.len() == 0 {
        None
    } else {
        Some(join_strings(items))
    }
}

impl DblpRecord {
    /// Project a publication record of kind `kind` onto a row.
    pub fn from_publication(
        kind: PublicationRecord,
        value: &crate::dataset::xml_items::PublicationRecord,
    ) -> (row: DblpRecord)
        ensures
            row@ == projected(kind, *value),
    {
        let mut author_list: Vec<String> = Vec::new();
        let mut i: usize = 0;
        while i < value.authors.len()
            invariant
                i <= value.authors.len(),
                names(author_list@) == author_names(value.authors@).subrange(0, i as int),
            decreases value.authors.len() - i,
        {
            let ghost before = names(author_list@);
            author_list.push(value.authors[i].name.clone());
            assert(names(author_list@) =~= before.push(value.authors[i as int].name@));
            assert(names(author_list@) =~= author_names(value.authors@).subrange(0, i + 1));
            i += 1;
        }
        assert(names(author_list@) =~= author_names(value.authors@));
        let mut cited: Vec<String> = Vec::new();
        let mut j: usize = 0;
        let ghost keep = |c: Seq<char>| is_citation(c);
        while j < value.citations.len()
            invariant
                j <= value.citations.len(),
                keep == (|c: Seq<char>| is_citation(c)),
                names(cited@) == names(value.citations@).subrange(0, j as int).filter(keep),
            decreases value.citations.len() - j,
        {
            let ghost all = names(value.citations@);
            let ghost before = names(cited@);
            proof {
                assert(all.subrange(0, j + 1).drop_last() =~= all.subrange(0, j as int));
                reveal(Seq::filter);
            }
            if has_alphabetic(value.citations[j].as_str()) {
                cited.push(value.citations[j].clone());
                assert(names(cited@) =~= before.push(all[j as int]));
            }
            j += 1;
        }
        assert(names(value.citations@).subrange(0, j as int) =~= names(value.citations@));
        let mdate = match value.mdate {
            Some(d) => format_date(d.year, d.month, d.day),
            None => None,
        };
        DblpRecord {
            id: 0,
            record: kind,
            key: value.key.clone(),
            mdate,
            publtype: clone_optional(&value.publtype),
            year: value.year,
            authors: encode_nonempty(&author_list),
            citations: encode_nonempty(&cited),
            publisher: encode_nonempty(&value.publisher),
            school: encode_nonempty(&value.school),
        }
    }
}

/// A publication record of one kind.
pub trait Publication {
    /// The kind of the record.
    spec fn kind_of() -> PublicationRecord;

    /// What the record holds.
    spec fn content(&self) -> crate::dataset::xml_items::PublicationRecord;

    /// The kind of the record.
    fn kind() -> (k: PublicationRecord)
        ensures
            k == Self::kind_of(),
    ;

    /// What the record holds.
    fn record(&self) -> (r: &crate::dataset::xml_items::PublicationRecord)
        ensures
            *r == self.content(),
    ;
}

impl Publication for Article {
    open spec fn kind_of() -> PublicationRecord {
        PublicationRecord::Article
    }

    open spec fn content(&self) -> crate::dataset::xml_items::PublicationRecord {
        self.0
    }

    fn kind() -> (k: PublicationRecord) {
        PublicationRecord::Article
    }

    fn record(&self) -> (r: &crate::dataset::xml_items::PublicationRecord) {
        &self.0
    }
}

impl Publication for InProceeding {
    open spec fn kind_of() -> PublicationRecord {
        PublicationRecord::InProceeding
    }

    open spec fn content(&self) -> crate::dataset::xml_items::PublicationRecord {
        self.0
    }

    fn kind() -> (k: PublicationRecord) {
        PublicationRecord::InProceeding
    }

    fn record(&self) -> (r: &crate::dataset::xml_items::PublicationRecord) {
        &self.0
    }
}

impl Publication for Proceeding {
    open spec fn kind_of() -> PublicationRecord {
        PublicationRecord::Proceeding
    }

    open spec fn content(&self) -> crate::dataset::xml_items::PublicationRecord {
        self.0
    }

    fn kind() -> (k: PublicationRecord) {
        PublicationRecord::Proceeding
    }

    fn record(&self) -> (r: &crate::dataset::xml_items::PublicationRecord) {
        &self.0
    }
}

impl Publication for Book {
    open spec fn kind_of() -> PublicationRecord {
        PublicationRecord::Book
    }

    open spec fn content(&self) -> crate::dataset::xml_items::PublicationRecord {
        self.0
    }

    fn kind() -> (k: PublicationRecord) {
        PublicationRecord::Book
    }

    fn record(&self) -> (r: &crate::dataset::xml_items::PublicationRecord) {
        &self.0
    }
}

impl Publication for InCollection {
    open spec fn kind_of() -> PublicationRecord {
        PublicationRecord::InCollection
    }

    open spec fn content(&self) -> crate::dataset::xml_items::PublicationRecord {
        self.0
    }

    fn kind() -> (k: PublicationRecord) {
        PublicationRecord::InCollection
    }

    fn record(&self) -> (r: &crate::dataset::xml_items::PublicationRecord) {
        &self.0
    }
}

impl Publication for PhdThesis {
    open spec fn kind_of() -> PublicationRecord {
        PublicationRecord::PhdThesis
    }

    open spec fn content(&self) -> crate::dataset::xml_items::PublicationRecord {
        self.0
    }

    fn kind() -> (k: PublicationRecord) {
        PublicationRecord::PhdThesis
    }

    fn record(&self) -> (r: &crate::dataset::xml_items::PublicationRecord) {
        &self.0
    }
}

impl Publication for MastersThesis {
    open spec fn kind_of() -> PublicationRecord {
        PublicationRecord::MastersThesis
    }

    open spec fn content(&self) -> crate::dataset::xml_items::PublicationRecord {
        self.0
    }

    fn kind() -> (k: PublicationRecord) {
        PublicationRecord::MastersThesis
    }

    fn record(&self) -> (r: &crate::dataset::xml_items::PublicationRecord) {
        &self.0
    }
}

impl Publication for Data {
    open spec fn kind_of() -> PublicationRecord {
        PublicationRecord::Data
    }

    open spec fn content(&self) -> crate::dataset::xml_items::PublicationRecord {
        self.0
    }

    fn kind() -> (k: PublicationRecord) {
        PublicationRecord::Data
    }

    fn record(&self) -> (r: &crate::dataset::xml_items::PublicationRecord) {
        &self.0
    }
}

/// The views of a list of publication rows.
pub open spec fn publication_views(rows: Seq<DblpRecord>) -> Seq<DblpRecordView> {
    Seq::new(rows.len(), |i: int| rows[i]@)
}

/// The views of a list of person rows.
pub open spec fn person_views(rows: Seq<PersonRecord>) -> Seq<PersonRecordView> {
    Seq::new(rows.len(), |i: int| rows[i]@)
}

/// The rows that the records of one kind are projected onto, in order.
pub open spec fn group_rows<T: Publication>(source: Seq<T>) -> Seq<DblpRecordView> {
    Seq::new(source.len(), |i: int| projected(T::kind_of(), source[i].content()))
}

/// The names after the first one.
pub open spec fn later_names(all: Seq<Seq<char>>) -> Seq<Seq<char>> {
    if all.len() == 0 {
        all
    } else {
        all.subrange(1, all.len() as int)
    }
}

/// The person that a web page stands for: the page's first title must be
/// `Home Page`. The first author is the name, the others are the aliases,
/// and the page's key is the profile.
pub open spec fn person_of(page: WebPage) -> Option<PersonRecordView> {
    if page.title@.len() > 0 && page.title@[0]@ == "Home Page"@ {
        Some(
            PersonRecordView {
                id: 0,
                name: if page.author@.len() > 0 {
                    page.author@[0]@
                } else {
                    Seq::empty()
                },
                profile: page.key@,
                aliases: bag_encode(later_names(names(page.author@))),
            },
        )
    } else {
        None
    }
}

/// The persons among the first `upto` web pages, in order.
pub open spec fn persons_of(pages: Seq<WebPage>, upto: int) -> Seq<PersonRecordView>
    decreases upto,
{
    if upto <= 0 {
        Seq::empty()
    } else {
        match person_of(pages[upto - 1]) {
            Some(p) => persons_of(pages, upto - 1).push(p),
            None => persons_of(pages, upto - 1),
        }
    }
}

/// The publication rows of a document: the projections of its articles,
/// in-proceedings, proceedings, books, in-collections, PhD theses, master's
/// theses and data records, in this order.
pub open spec fn publications_of(value: RawDblp) -> Seq<DblpRecordView> {
    group_rows(value.articles@) + group_rows(value.inproceedings@) + group_rows(
        value.proceedings@,
    ) + group_rows(value.books@) + group_rows(value.incollections@) + group_rows(
        value.phd_theses@,
    ) + group_rows(value.masters_theses@) + group_rows(value.data@)
}

impl DblpRecord {
    /// Project a publication record onto a row. It never fails.
    pub fn try_from<T: Publication>(value: &T) -> (row: Result<DblpRecord, ()>)
        ensures
            row matches Ok(r) && r@ == projected(T::kind_of(), value.content()),
    {
        Ok(DblpRecord::from_publication(T::kind(), value.record()))
    }

    /// The names of the authors, read from their bag encoding; nothing
    /// where the row has no authors.
    pub fn authors(&self) -> (list: Option<Vec<String>>)
        ensures
            match self.authors {
                Some(bag) => list matches Some(v) && names(v@) == bag_decode(bag@),
                None => list is None,
            },
    {
        match &self.authors {
            Some(bag) => Some(split_bag(bag.as_str())),
            None => None,
        }
    }
}

fn extend_publications<T: Publication>(source: &Vec<T>, target: &mut Vec<DblpRecord>)
    ensures
        publication_views(final(target)@) == publication_views(old(target)@) + group_rows(
            source@,
        ),
{
    let ghost start = publication_views(target@);
    let mut i: usize = 0;
    assert(publication_views(target@) =~= start + group_rows(source@).subrange(0, 0));
    while i < source.len()
        invariant
            i <= source.len(),
            publication_views(target@) == start + group_rows(source@).subrange(0, i as int),
        decreases source.len() - i,
    {
        let row = DblpRecord::from_publication(T::kind(), source[i].record());
        let ghost before = publication_views(target@);
        let ghost added = row@;
        target.push(row);
        assert(publication_views(target@) =~= before.push(added));
        assert(publication_views(target@) =~= start + group_rows(source@).subrange(0, i + 1));
        i += 1;
    }
    assert(group_rows(source@).subrange(0, source.len() as int) =~= group_rows(source@));
}

impl PersonRecord {
    /// The person that a web page stands for; an error where the page's
    /// first title is not `Home Page`.
    pub fn try_from(value: &WebPage) -> (person: Result<PersonRecord, ()>)
        ensures
            match person_of(*value) {
                Some(p) => person matches Ok(r) && r@ == p,
                None => person is Err,
            },
    {
        if value.title.len() == 0 {
            return Err(());
        }
        if value.title[0] != "Home Page".to_owned() {
            return Err(());
        }
        let name = if value.author.len() > 0 {
            value.author[0].clone()
        } else {
            String::new()
        };
        let mut aliases: Vec<String> = Vec::new();
        let mut i: usize = 1;
        while i < value.author.len()
            invariant
                1 <= i,
                i <= value.author.len() || value.author.len() == 0,
                value.author.len() > 0 ==> names(aliases@) =~= names(value.author@).subrange(
                    1,
                    i as int,
                ),
                value.author.len() == 0 ==> aliases@.len() == 0,
            decreases value.author.len() - i,
        {
            let ghost before = names(aliases@);
            aliases.push(value.author[i].clone());
            assert(names(aliases@) =~= before.push(value.author@[i as int]@));
            i += 1;
        }
        assert(names(aliases@) =~= later_names(names(value.author@)));
        Ok(
            (PersonRecord {
                id: 0,
                name,
                profile: value.key.clone(),
                aliases: join_strings(&aliases),
            }),
        )
    }
}

impl RawDblp {
    /// Flatten a document into the rows of the two tables: every
    /// publication becomes a row, and every web page that is a person
    /// record becomes a person; the other web pages are left out.
    pub fn into_rows(&self) -> (rows: (Vec<DblpRecord>, Vec<PersonRecord>))
        ensures
            publication_views(rows.0@) == publications_of(*self),
            person_views(rows.1@) == persons_of(self.web_pages@, self.web_pages@.len() as int),
    {
        let mut publications: Vec<DblpRecord> = Vec::new();
        let mut persons: Vec<PersonRecord> = Vec::new();
        assert(publication_views(publications@) =~= Seq::<DblpRecordView>::empty());
        extend_publications(&self.articles, &mut publications);
        extend_publications(&self.inproceedings, &mut publications);
        extend_publications(&self.proceedings, &mut publications);
        extend_publications(&self.books, &mut publications);
        extend_publications(&self.incollections, &mut publications);
        extend_publications(&self.phd_theses, &mut publications);
        extend_publications(&self.masters_theses, &mut publications);
        extend_publications(&self.data, &mut publications);
        assert(publication_views(publications@) =~= publications_of(*self));
        let mut i: usize = 0;
        assert(person_views(persons@) =~= persons_of(self.web_pages@, 0));
        while i < self.web_pages.len()
            invariant
                i <= self.web_pages.len(),
                person_views(persons@) == persons_of(self.web_pages@, i as int),
            decreases self.web_pages.len() - i,
        {
            let ghost before = person_views(persons@);
            match PersonRecord::try_from(&self.web_pages[i]) {
                Ok(person) => {
                    persons.push(person);
                    assert(person_views(persons@) =~= before.push(person@));
                },
                Err(_) => {},
            }
            i += 1;
        }
        (publications, persons)
    }
}

/// One row of the per-author query: the year of a publication of the
/// author, and the bag of its authors.
#[derive(Clone, Debug)]
pub struct AssociatedAuthorYear {
    pub year: u32,
    pub authors: String,
}

/// Coauthor relations of a particular author over time.
#[derive(Debug)]
pub struct PersonTemporalRelation {
    pub author: String,
    /// First and last year of the range, both included.
    pub years: (u32, u32),
    /// For each year of the range, the coauthors up to that year. No name
    /// stands twice in one entry.
    pub coauthor_years: Vec<Vec<String>>,
}

/// The views of a list of lists of names.
pub open spec fn name_lists(lists: Seq<Vec<String>>) -> Seq<Seq<Seq<char>>> {
    Seq::new(lists.len(), |i: int| names(lists[i]@))
}

/// What a temporal relation holds.
pub struct PersonTemporalRelationView {
    pub author: Seq<char>,
    pub years: (u32, u32),
    pub coauthor_years: Seq<Seq<Seq<char>>>,
}

impl PersonTemporalRelation {
    /// The relation's invariant: its entries are sets, so no name stands
    /// twice in one of them.
    pub open spec fn wf(&self) -> bool {
        forall|k: int|
            0 <= k < self.coauthor_years@.len() ==> (#[trigger] name_lists(
                self.coauthor_years@,
            )[k]).no_duplicates()
    }
}

impl View for PersonTemporalRelation {
    type V = PersonTemporalRelationView;

    open spec fn view(&self) -> PersonTemporalRelationView {
        PersonTemporalRelationView {
            author: self.author@,
            years: self.years,
            coauthor_years: name_lists(self.coauthor_years@),
        }
    }
}

/// Whether one of the rows with a year from `start` to `year` names `n`
/// among its authors.
pub open spec fn published_with(
    rows: Seq<AssociatedAuthorYear>,
    n: Seq<char>,
    start: int,
    year: int,
) -> bool {
    exists|i: int|
        0 <= i < rows.len() && start <= (#[trigger] rows[i]).year <= year && bag_decode(
            rows[i].authors@,
        ).contains(n)
}

/// `acc` with the authors of the first `upto` rows that are of the year
/// `year` added, but for `author`.
pub open spec fn year_names(
    rows: Seq<AssociatedAuthorYear>,
    author: Seq<char>,
    year: int,
    upto: int,
    acc: Seq<Seq<char>>,
) -> Seq<Seq<char>>
    decreases upto,
{
    if upto <= 0 {
        acc
    } else {
        let before = year_names(rows, author, year, upto - 1, acc);
        if rows[upto - 1].year == year {
            insert_all_except(before, bag_decode(rows[upto - 1].authors@), Some(author))
        } else {
            before
        }
    }
}

/// The coauthors of `author` on the rows with a year from `start` to
/// `year`, each once, in the order in which they first come when the years
/// are taken in turn.
pub open spec fn cumulative(
    rows: Seq<AssociatedAuthorYear>,
    author: Seq<char>,
    start: int,
    year: int,
) -> Seq<Seq<char>>
    decreases year - start + 1,
{
    if year < start {
        Seq::empty()
    } else {
        year_names(rows, author, year, rows.len() as int, cumulative(rows, author, start, year - 1))
    }
}

/// The length of the inclusive range from `start` to `end`.
pub open spec fn range_len(start: u32, end: u32) -> nat {
    if start <= end {
        (end - start + 1) as nat
    } else {
        0
    }
}

/// What `year_names` holds: the names of `acc`, and the authors other than
/// `author` of the first `upto` rows that are of the year `year`.
pub proof fn lemma_year_names(
    rows: Seq<AssociatedAuthorYear>,
    author: Seq<char>,
    year: int,
    upto: int,
    acc: Seq<Seq<char>>,
)
    requires
        0 <= upto <= rows.len(),
        acc.no_duplicates(),
    ensures
        year_names(rows, author, year, upto, acc).no_duplicates(),
        forall|n: Seq<char>| #[trigger]
            year_names(rows, author, year, upto, acc).contains(n) <==> acc.contains(n) || (n
                != author && exists|i: int|
                0 <= i < upto && (#[trigger] rows[i]).year == year && bag_decode(
                    rows[i].authors@,
                ).contains(n)),
    decreases upto,
{
    if upto > 0 {
        let before = year_names(rows, author, year, upto - 1, acc);
        let out = year_names(rows, author, year, upto, acc);
        lemma_year_names(rows, author, year, upto - 1, acc);
        let last = rows[upto - 1];
        if last.year == year {
            lemma_insert_all_except(before, bag_decode(last.authors@), Some(author));
        }
        assert forall|n: Seq<char>| #[trigger]
            out.contains(n) <==> acc.contains(n) || (n != author && exists|i: int|
                0 <= i < upto && (#[trigger] rows[i]).year == year && bag_decode(
                    rows[i].authors@,
                ).contains(n)) by {
            let earlier = exists|i: int|
                0 <= i < upto - 1 && (#[trigger] rows[i]).year == year && bag_decode(
                    rows[i].authors@,
                ).contains(n);
            let now = exists|i: int|
                0 <= i < upto && (#[trigger] rows[i]).year == year && bag_decode(
                    rows[i].authors@,
                ).contains(n);
            let here = last.year == year && bag_decode(last.authors@).contains(n);
            assert(before.contains(n) <==> acc.contains(n) || (n != author && earlier));
            if earlier {
                let i = choose|i: int|
                    0 <= i < upto - 1 && (#[trigger] rows[i]).year == year && bag_decode(
                        rows[i].authors@,
                    ).contains(n);
                assert(0 <= i < upto && rows[i].year == year);
            }
            if here {
                assert(rows[upto - 1].year == year);
            }
            if now {
                let i = choose|i: int|
                    0 <= i < upto && (#[trigger] rows[i]).year == year && bag_decode(
                        rows[i].authors@,
                    ).contains(n);
                if i < upto - 1 {
                    assert(rows[i].year == year);
                    assert(earlier);
                } else {
                    assert(here);
                }
            }
            assert(now <==> earlier || here);
        }
    }
}

/// What the cumulative list holds: no name twice, and exactly the names
/// other than `author` that a row with a year from `start` to `year` has
/// among its authors.
pub proof fn lemma_cumulative(
    rows: Seq<AssociatedAuthorYear>,
    author: Seq<char>,
    start: int,
    year: int,
)
    ensures
        cumulative(rows, author, start, year).no_duplicates(),
        forall|n: Seq<char>| #[trigger]
            cumulative(rows, author, start, year).contains(n) <==> n != author && published_with(
                rows,
                n,
                start,
                year,
            ),
    decreases year - start + 1,
{
    let out = cumulative(rows, author, start, year);
    if year < start {
        assert forall|n: Seq<char>| #[trigger]
            out.contains(n) <==> n != author && published_with(rows, n, start, year) by {
            if published_with(rows, n, start, year) {
                let i = choose|i: int|
                    0 <= i < rows.len() && start <= (#[trigger] rows[i]).year <= year
                        && bag_decode(rows[i].authors@).contains(n);
                assert(false);
            }
        }
    } else {
        let acc = cumulative(rows, author, start, year - 1);
        lemma_cumulative(rows, author, start, year - 1);
        lemma_year_names(rows, author, year, rows.len() as int, acc);
        assert forall|n: Seq<char>| #[trigger]
            out.contains(n) <==> n != author && published_with(rows, n, start, year) by {
            let this_year = exists|i: int|
                0 <= i < rows.len() && (#[trigger] rows[i]).year == year && bag_decode(
                    rows[i].authors@,
                ).contains(n);
            assert(acc.contains(n) <==> n != author && published_with(rows, n, start, year - 1));
            assert(out.contains(n) <==> acc.contains(n) || (n != author && this_year));
            if published_with(rows, n, start, year - 1) {
                let i = choose|i: int|
                    0 <= i < rows.len() && start <= (#[trigger] rows[i]).year <= year - 1
                        && bag_decode(rows[i].authors@).contains(n);
                assert(start <= rows[i].year <= year);
            }
            if this_year {
                let i = choose|i: int|
                    0 <= i < rows.len() && (#[trigger] rows[i]).year == year && bag_decode(
                        rows[i].authors@,
                    ).contains(n);
                assert(start <= rows[i].year <= year);
            }
            if published_with(rows, n, start, year) {
                let i = choose|i: int|
                    0 <= i < rows.len() && start <= (#[trigger] rows[i]).year <= year
                        && bag_decode(rows[i].authors@).contains(n);
                if rows[i].year == year {
                    assert(this_year);
                } else {
                    assert(start <= rows[i].year <= year - 1);
                    assert(published_with(rows, n, start, year - 1));
                }
            }
        }
    }
}

/// The coauthors up to one year are among the coauthors up to any later
/// year.
pub proof fn lemma_cumulative_grows(
    rows: Seq<AssociatedAuthorYear>,
    author: Seq<char>,
    start: int,
    year: int,
    later: int,
)
    requires
        year <= later,
    ensures
        forall|n: Seq<char>|
            cumulative(rows, author, start, year).contains(n) ==> #[trigger] cumulative(
                rows,
                author,
                start,
                later,
            ).contains(n),
{
    lemma_cumulative(rows, author, start, year);
    lemma_cumulative(rows, author, start, later);
    assert forall|n: Seq<char>| cumulative(rows, author, start, year).contains(n) implies #[trigger]
        cumulative(rows, author, start, later).contains(n) by {
        let i = choose|i: int|
            0 <= i < rows.len() && start <= (#[trigger] rows[i]).year <= year && bag_decode(
                rows[i].authors@,
            ).contains(n);
        assert(start <= rows[i].year <= later);
    }
}

/// An author is never among their own coauthors.
pub proof fn lemma_cumulative_excludes_author(
    rows: Seq<AssociatedAuthorYear>,
    author: Seq<char>,
    start: int,
    year: int,
)
    ensures
        !cumulative(rows, author, start, year).contains(author),
{
    lemma_cumulative(rows, author, start, year);
}

impl PersonRecord {
    /// The temporal relation of the person with their coauthors over the
    /// years from `start` to `end`, from the rows of the person's
    /// publications.
    ///
    /// Entry `k` of the relation holds the coauthors on the rows with a
    /// year from `start` to `start + k`: every entry is contained in the
    /// next one, and none holds the person's own name.
    pub fn to_relations(&self, start: u32, end: u32, rows: &Vec<AssociatedAuthorYear>) -> (rel:
        PersonTemporalRelation)
        ensures
            rel.wf(),
            rel@.author == self.name@,
            rel@.years == (start, end),
            rel@.coauthor_years.len() == range_len(start, end),
            forall|k: int|
                0 <= k < rel@.coauthor_years.len() ==> #[trigger] rel@.coauthor_years[k]
                    == cumulative(rows@, self.name@, start as int, start + k),
            forall|k: int|
                0 <= k < rel@.coauthor_years.len() ==> !(#[trigger] rel@.coauthor_years[k]).contains(
                    self.name@,
                ),
            forall|k: int, n: Seq<char>|
                0 <= k && k + 1 < rel@.coauthor_years.len() && (
                #[trigger] rel@.coauthor_years[k]).contains(n) ==> #[trigger] rel@.coauthor_years[k
                    + 1].contains(n),
    {
        let mut coauthor_years: Vec<Vec<String>> = Vec::new();
        let mut acc: Vec<String> = Vec::new();
        let mut yr: u64 = start as u64;
        let ghost author = self.name@;
        assert(names(acc@) =~= cumulative(rows@, author, start as int, start - 1));
        while yr <= end as u64
            invariant
                author == self.name@,
                start <= yr,
                start <= end ==> yr <= end + 1,
                start > end ==> yr == start,
                coauthor_years.len() == yr - start,
                names(acc@) == cumulative(rows@, author, start as int, yr - 1),
                forall|k: int|
                    0 <= k < coauthor_years.len() ==> #[trigger] name_lists(coauthor_years@)[k]
                        == cumulative(rows@, author, start as int, start + k),
            decreases end + 1 - yr,
        {
            let ghost before = names(acc@);
            let mut r: usize = 0;
            while r < rows.len()
                invariant
                    author == self.name@,
                    r <= rows.len(),
                    names(acc@) == year_names(rows@, author, yr as int, r as int, before),
                decreases rows.len() - r,
            {
                if rows[r].year as u64 == yr {
                    let decoded = split_bag(rows[r].authors.as_str());
                    insert_names(&mut acc, &decoded, Some(&self.name));
                }
                r += 1;
            }
            let snapshot = clone_names(&acc);
            let ghost lists = name_lists(coauthor_years@);
            coauthor_years.push(snapshot);
            assert(name_lists(coauthor_years@) =~= lists.push(names(acc@)));
            yr += 1;
        }
        let rel = PersonTemporalRelation {
            author: self.name.clone(),
            years: (start, end),
            coauthor_years,
        };
        proof {
            assert forall|k: int| 0 <= k < rel.coauthor_years@.len() implies (#[trigger] name_lists(
                rel.coauthor_years@,
            )[k]).no_duplicates() by {
                lemma_cumulative(rows@, author, start as int, start + k);
            }
            assert forall|k: int| 0 <= k < rel@.coauthor_years.len() implies !(
            #[trigger] rel@.coauthor_years[k]).contains(author) by {
                lemma_cumulative_excludes_author(rows@, author, start as int, start + k);
            }
            assert forall|k: int, n: Seq<char>|
                0 <= k && k + 1 < rel@.coauthor_years.len() && (
                #[trigger] rel@.coauthor_years[k]).contains(n) implies #[trigger] rel@.coauthor_years[k
                + 1].contains(n) by {
                lemma_cumulative_grows(rows@, author, start as int, start + k, start + k + 1);
            }
        }
        rel
    }
}

/// The names of the first `upto` lists, each once, in the order in which
/// they first come.
pub open spec fn merged(lists: Seq<Seq<Seq<char>>>, upto: int) -> Seq<Seq<char>>
    decreases upto,
{
    if upto <= 0 {
        Seq::empty()
    } else {
        insert_all_except(merged(lists, upto - 1), lists[upto - 1], None)
    }
}

/// The header row of the export: `author`, then each year of the range.
pub open spec fn csv_headers(years: (u32, u32)) -> Seq<Seq<char>> {
    seq!["author"@] + Seq::new(range_len(years.0, years.1), |k: int| decimal((years.0 + k) as nat))
}

/// The data row of a relation: the author, then for each entry the bag of
/// all names up to and including that entry.
pub open spec fn csv_row(rel: PersonTemporalRelationView) -> Seq<Seq<char>> {
    seq![rel.author] + Seq::new(
        rel.coauthor_years.len(),
        |k: int| bag_encode(merged(rel.coauthor_years, k + 1)),
    )
}

/// Why relations cannot be exported.
#[derive(Clone, Copy, Debug, PartialEq, Eq)]
pub enum ExportError {
    /// The relations do not all share the same year range.
    MixedYearRanges,
}

impl ExportError {
    /// The message for the error.
    pub fn message(&self) -> (s: &'static str)
        ensures
            s@ == "records do not all share the same year range"@,
    {
        "records do not all share the same year range"
    }
}

/// Whether all relations have the year range of the first one.
pub open spec fn same_years(relations: Seq<PersonTemporalRelation>) -> bool {
    forall|i: int| 0 <= i < relations.len() ==> (#[trigger] relations[i]).years == relations[0].years
}

/// The rows of the export of `relations`: nothing for no relation, else the
/// header row of the first relation and one data row for each relation.
pub open spec fn csv_table(relations: Seq<PersonTemporalRelation>) -> Seq<Seq<Seq<char>>> {
    if relations.len() == 0 {
        Seq::empty()
    } else {
        seq![csv_headers(relations[0].years)] + Seq::new(
            relations.len(),
            |i: int| csv_row(relations[i]@),
        )
    }
}

/// The views of the rows of a table of strings.
pub open spec fn table_view(rows: Seq<Vec<String>>) -> Seq<Seq<Seq<char>>> {
    Seq::new(rows.len(), |i: int| names(rows[i]@))
}

impl PersonTemporalRelation {
    /// The relation that stands for an author whose relation could not be
    /// computed: no name, the years `(0, 0)`, and no entry.
    pub open spec fn placeholder_view() -> PersonTemporalRelationView {
        PersonTemporalRelationView {
            author: Seq::empty(),
            years: (0, 0),
            coauthor_years: Seq::empty(),
        }
    }

    /// The relation, or the placeholder where there is none.
    pub fn or_placeholder(outcome: Option<PersonTemporalRelation>) -> (rel: PersonTemporalRelation)
        ensures
            rel@ == match outcome {
                Some(r) => r@,
                None => Self::placeholder_view(),
            },
            outcome is None ==> rel.wf(),
    {
        match outcome {
            Some(r) => r,
            None => {
                let rel = PersonTemporalRelation {
                    author: String::new(),
                    years: (0, 0),
                    coauthor_years: Vec::new(),
                };
                assert(rel@.coauthor_years =~= Seq::empty());
                rel
            },
        }
    }

    /// The header row of the export, which depends on the year range alone.
    pub fn to_csv_headers(&self) -> (headers: Vec<String>)
        ensures
            names(headers@) == csv_headers(self.years),
    {
        let start = self.years.0;
        let end = self.years.1;
        let mut headers: Vec<String> = Vec::new();
        headers.push("author".to_owned());
        let mut yr: u64 = start as u64;
        let ghost cells = Seq::new(range_len(start, end), |k: int| decimal((start + k) as nat));
        assert(names(headers@) =~= seq!["author"@] + cells.subrange(0, 0));
        while yr <= end as u64
            invariant
                start <= yr,
                start <= end ==> yr <= end + 1,
                start > end ==> yr == start,
                cells == Seq::new(range_len(start, end), |k: int| decimal((start + k) as nat)),
                names(headers@) == seq!["author"@] + cells.subrange(0, yr - start),
            decreases end + 1 - yr,
        {
            let ghost before = names(headers@);
            let cell = decimal_string(yr as u32);
            headers.push(cell);
            assert(names(headers@) =~= before.push(decimal(yr as nat)));
            assert(names(headers@) =~= seq!["author"@] + cells.subrange(0, yr + 1 - start));
            yr += 1;
        }
        assert(cells.subrange(0, yr - start) =~= cells);
        headers
    }

    /// The data row of the export.
    pub fn to_csv_row(&self) -> (row: Vec<String>)
        ensures
            names(row@) == csv_row(self@),
    {
        let mut row: Vec<String> = Vec::new();
        row.push(self.author.clone());
        let mut coauthors: Vec<String> = Vec::new();
        let ghost lists = name_lists(self.coauthor_years@);
        let ghost cells = Seq::new(lists.len(), |k: int| bag_encode(merged(lists, k + 1)));
        let mut i: usize = 0;
        assert(names(row@) =~= seq![self.author@] + cells.subrange(0, 0));
        assert(names(coauthors@) =~= merged(lists, 0));
        while i < self.coauthor_years.len()
            invariant
                i <= self.coauthor_years.len(),
                lists == name_lists(self.coauthor_years@),
                cells == Seq::new(lists.len(), |k: int| bag_encode(merged(lists, k + 1))),
                names(coauthors@) == merged(lists, i as int),
                names(row@) == seq![self.author@] + cells.subrange(0, i as int),
            decreases self.coauthor_years.len() - i,
        {
            insert_names(&mut coauthors, &self.coauthor_years[i], None);
            let ghost before = names(row@);
            let cell = join_strings(&coauthors);
            row.push(cell);
            assert(names(row@) =~= before.push(bag_encode(merged(lists, i + 1))));
            assert(names(row@) =~= seq![self.author@] + cells.subrange(0, i + 1));
            i += 1;
        }
        assert(cells.subrange(0, i as int) =~= cells);
        row
    }
}

/// The rows to export for `relations`, the header row first.
///
/// Fails where the relations do not all share the year range of the first
/// one. No relation gives no row, not even the header.
pub fn temporal_relation_records(relations: &Vec<PersonTemporalRelation>) -> (out: Result<
    Vec<Vec<String>>,
    ExportError,
>)
    ensures
        match out {
            Ok(records) => same_years(relations@) && table_view(records@) == csv_table(
                relations@,
            ),
            Err(e) => !same_years(relations@) && e == ExportError::MixedYearRanges,
        },
{
    let mut records: Vec<Vec<String>> = Vec::new();
    if relations.len() == 0 {
        assert(table_view(records@) =~= csv_table(relations@));
        return Ok(records);
    }
    let first = relations[0].years;
    let mut i: usize = 0;
    while i < relations.len()
        invariant
            i <= relations.len(),
            relations.len() > 0,
            first == relations@[0].years,
            forall|j: int| 0 <= j < i ==> (#[trigger] relations@[j]).years == first,
        decreases relations.len() - i,
    {
        if relations[i].years.0 != first.0 || relations[i].years.1 != first.1 {
            assert(relations@[i as int].years != relations@[0].years);
            return Err(ExportError::MixedYearRanges);
        }
        i += 1;
    }
    records.push(relations[0].to_csv_headers());
    let ghost data = Seq::new(relations@.len(), |i: int| csv_row(relations@[i]@));
    assert(table_view(records@) =~= seq![csv_headers(first)] + data.subrange(0, 0));
    let mut k: usize = 0;
    while k < relations.len()
        invariant
            k <= relations.len(),
            data == Seq::new(relations@.len(), |i: int| csv_row(relations@[i]@)),
            table_view(records@) == seq![csv_headers(first)] + data.subrange(0, k as int),
        decreases relations.len() - k,
    {
        let ghost before = table_view(records@);
        let row = relations[k].to_csv_row();
        records.push(row);
        assert(table_view(records@) =~= before.push(csv_row(relations@[k as int]@)));
        assert(table_view(records@) =~= seq![csv_headers(first)] + data.subrange(0, k + 1));
        k += 1;
    }
    assert(data.subrange(0, k as int) =~= data);
    Ok(records)
}

/// The authors of the first `upto` publications, each once, in the order
/// in which they first come.
pub open spec fn listed_authors(publications: Seq<DblpRecord>, upto: int) -> Seq<Seq<char>>
    decreases upto,
{
    if upto <= 0 {
        Seq::empty()
    } else {
        let before = listed_authors(publications, upto - 1);
        match publications[upto - 1].authors {
            Some(bag) => insert_all_except(before, bag_decode(bag@), None),
            None => before,
        }
    }
}

/// What the list of authors holds: no name twice, and exactly the names
/// that one of the first `upto` publications has among its authors.
pub proof fn lemma_listed_authors(publications: Seq<DblpRecord>, upto: int)
    requires
        0 <= upto <= publications.len(),
    ensures
        listed_authors(publications, upto).no_duplicates(),
        forall|n: Seq<char>| #[trigger]
            listed_authors(publications, upto).contains(n) <==> exists|i: int|
                0 <= i < upto && (#[trigger] publications[i]).authors is Some && bag_decode(
                    publications[i].authors->0@,
                ).contains(n),
    decreases upto,
{
    if upto > 0 {
        let before = listed_authors(publications, upto - 1);
        let out = listed_authors(publications, upto);
        let last = publications[upto - 1];
        lemma_listed_authors(publications, upto - 1);
        if last.authors is Some {
            lemma_insert_all_except(before, bag_decode(last.authors->0@), None);
        }
        assert forall|n: Seq<char>| #[trigger]
            out.contains(n) <==> exists|i: int|
                0 <= i < upto && (#[trigger] publications[i]).authors is Some && bag_decode(
                    publications[i].authors->0@,
                ).contains(n) by {
            let earlier = exists|i: int|
                0 <= i < upto - 1 && (#[trigger] publications[i]).authors is Some && bag_decode(
                    publications[i].authors->0@,
                ).contains(n);
            let now = exists|i: int|
                0 <= i < upto && (#[trigger] publications[i]).authors is Some && bag_decode(
                    publications[i].authors->0@,
                ).contains(n);
            let here = last.authors is Some && bag_decode(last.authors->0@).contains(n);
            assert(before.contains(n) <==> earlier);
            if earlier {
                let i = choose|i: int|
                    0 <= i < upto - 1 && (#[trigger] publications[i]).authors is Some
                        && bag_decode(publications[i].authors->0@).contains(n);
                assert(0 <= i < upto && publications[i].authors is Some);
            }
            if here {
                assert(publications[upto - 1].authors is Some);
            }
            if now {
                let i = choose|i: int|
                    0 <= i < upto && (#[trigger] publications[i]).authors is Some && bag_decode(
                        publications[i].authors->0@,
                    ).contains(n);
                if i < upto - 1 {
                    assert(publications[i].authors is Some);
                    assert(earlier);
                } else {
                    assert(here);
                }
            }
            assert(now <==> earlier || here);
        }
    }
}

impl PersonRecord {
    /// The names on the given publications, each once; for the
    /// publications of a person these are the person and their coauthors.
    pub fn coauthors(&self, publications: &Vec<DblpRecord>) -> (list: Vec<String>)
        ensures
            names(list@) == listed_authors(publications@, publications@.len() as int),
            names(list@).no_duplicates(),
    {
        proof {
            lemma_listed_authors(publications@, publications@.len() as int);
        }
        let mut list: Vec<String> = Vec::new();
        let mut i: usize = 0;
        assert(names(list@) =~= listed_authors(publications@, 0));
        while i < publications.len()
            invariant
                i <= publications.len(),
                names(list@) == listed_authors(publications@, i as int),
            decreases publications.len() - i,
        {
            match &publications[i].authors {
                Some(bag) => {
                    let decoded = split_bag(bag.as_str());
                    insert_names(&mut list, &decoded, None);
                },
                None => {},
            }
            i += 1;
        }
        list
    }
}

/// Walks over the columns of a publication row, as pairs of the column's
/// name and its value as text.
#[derive(Debug)]
pub struct DblpRecordIter {
    field: u8,
    inner: DblpRecord,
}

/// Walks over the columns of a person row, as pairs of the column's name
/// and its value as text.
#[derive(Debug)]
pub struct PersonRecordIter {
    field: u8,
    inner: PersonRecord,
}

/// A pair of a column's name and its value, as a walk over a row gives it.
pub open spec fn field_view(pair: Option<(String, Option<String>)>) -> Option<
    (Seq<char>, Option<Seq<char>>),
> {
    match pair {
        Some((name, value)) => Some((name@, text_of(value))),
        None => None,
    }
}

/// Column `i` of a publication row by name and value; the year is written
/// as a decimal numeral.
pub open spec fn publication_field(row: DblpRecordView, i: int) -> Option<
    (Seq<char>, Option<Seq<char>>),
> {
    if i == 0 {
        Some(("record"@, Some(row.record.name())))
    } else if i == 1 {
        Some(("key"@, Some(row.key)))
    } else if i == 2 {
        Some(("mdate"@, row.mdate))
    } else if i == 3 {
        Some(("publtype"@, row.publtype))
    } else if i == 4 {
        Some(
            (
                "year"@,
                match row.year {
                    Some(y) => Some(decimal(y as nat)),
                    None => None,
                },
            ),
        )
    } else if i == 5 {
        Some(("authors"@, row.authors))
    } else if i == 6 {
        Some(("citations"@, row.citations))
    } else if i == 7 {
        Some(("publisher"@, row.publisher))
    } else if i == 8 {
        Some(("school"@, row.school))
    } else {
        None
    }
}

/// Column `i` of a person row by name and value.
pub open spec fn person_field(row: PersonRecordView, i: int) -> Option<
    (Seq<char>, Option<Seq<char>>),
> {
    if i == 0 {
        Some(("name"@, Some(row.name)))
    } else if i == 1 {
        Some(("profile"@, Some(row.profile)))
    } else if i == 2 {
        Some(("aliases"@, Some(row.aliases)))
    } else {
        None
    }
}

impl DblpRecord {
    /// A copy of the row.
    pub fn duplicate(&self) -> (copy: DblpRecord)
        ensures
            copy@ == self@,
    {
        DblpRecord {
            id: self.id,
            record: self.record,
            key: self.key.clone(),
            mdate: clone_optional(&self.mdate),
            publtype: clone_optional(&self.publtype),
            year: self.year,
            authors: clone_optional(&self.authors),
            citations: clone_optional(&self.citations),
            publisher: clone_optional(&self.publisher),
            school: clone_optional(&self.school),
        }
    }

    /// A walk over the columns of the row, from the first.
    pub fn __iter__(&self) -> (walk: DblpRecordIter)
        ensures
            walk.row() == self@,
            walk.position() == 0,
    {
        DblpRecordIter { field: 0, inner: self.duplicate() }
    }
}

impl PersonRecord {
    /// A copy of the row.
    pub fn duplicate(&self) -> (copy: PersonRecord)
        ensures
            copy@ == self@,
    {
        PersonRecord {
            id: self.id,
            name: self.name.clone(),
            profile: self.profile.clone(),
            aliases: self.aliases.clone(),
        }
    }

    /// A walk over the columns of the row, from the first.
    pub fn __iter__(&self) -> (walk: PersonRecordIter)
        ensures
            walk.row() == self@,
            walk.position() == 0,
    {
        PersonRecordIter { field: 0, inner: self.duplicate() }
    }
}

impl DblpRecordIter {
    /// The row that is walked over.
    pub closed spec fn row(&self) -> DblpRecordView {
        self.inner@
    }

    /// The number of columns handed out.
    pub closed spec fn position(&self) -> int {
        self.field as int
    }

    /// The next column, or nothing after the last one.
    pub fn __next__(&mut self) -> (pair: Option<(String, Option<String>)>)
        ensures
            final(self).row() == old(self).row(),
            field_view(pair) == publication_field(old(self).row(), old(self).position()),
            final(self).position() == if pair is Some {
                old(self).position() + 1
            } else {
                old(self).position()
            },
    {
        let pair = if self.field == 0 {
            Some(("record".to_owned(), Some(self.inner.record.to_string())))
        } else if self.field == 1 {
            Some(("key".to_owned(), Some(self.inner.key.clone())))
        } else if self.field == 2 {
            Some(("mdate".to_owned(), clone_optional(&self.inner.mdate)))
        } else if self.field == 3 {
            Some(("publtype".to_owned(), clone_optional(&self.inner.publtype)))
        } else if self.field == 4 {
            let year = match self.inner.year {
                Some(y) => Some(decimal_string(y)),
                None => None,
            };
            Some(("year".to_owned(), year))
        } else if self.field == 5 {
            Some(("authors".to_owned(), clone_optional(&self.inner.authors)))
        } else if self.field == 6 {
            Some(("citations".to_owned(), clone_optional(&self.inner.citations)))
        } else if self.field == 7 {
            Some(("publisher".to_owned(), clone_optional(&self.inner.publisher)))
        } else if self.field == 8 {
            Some(("school".to_owned(), clone_optional(&self.inner.school)))
        } else {
            None
        };
        if self.field <= 8 {
            self.field = self.field + 1;
        }
        pair
    }
}

impl PersonRecordIter {
    /// The row that is walked over.
    pub closed spec fn row(&self) -> PersonRecordView {
        self.inner@
    }

    /// The number of columns handed out.
    pub closed spec fn position(&self) -> int {
        self.field as int
    }

    /// The next column, or nothing after the last one.
    pub fn __next__(&mut self) -> (pair: Option<(String, Option<String>)>)
        ensures
            final(self).row() == old(self).row(),
            field_view(pair) == person_field(old(self).row(), old(self).position()),
            final(self).position() == if pair is Some {
                old(self).position() + 1
            } else {
                old(self).position()
            },
    {
        let pair = if self.field == 0 {
            Some(("name".to_owned(), Some(self.inner.name.clone())))
        } else if self.field == 1 {
            Some(("profile".to_owned(), Some(self.inner.profile.clone())))
        } else if self.field == 2 {
            Some(("aliases".to_owned(), Some(self.inner.aliases.clone())))
        } else {
            None
        };
        if self.field <= 2 {
            self.field = self.field + 1;
        }
        pair
    }
}

impl DblpRecord {
    /// The row as the standard library's `Debug` formatting writes it, of
    /// which nothing is stated here.
    #[verifier::external_body]
    pub fn __str__(&self) -> (text: String) {
        format!("{:?}", self)
    }
}

impl PersonRecord {
    /// The row as the standard library's `Debug` formatting writes it, of
    /// which nothing is stated here.
    #[verifier::external_body]
    pub fn __str__(&self) -> (text: String) {
        format!("{:?}", self)
    }
}

impl PersonTemporalRelation {
    /// The relation as the standard library's `Debug` formatting writes it,
    /// of which nothing is stated here.
    #[verifier::external_body]
    pub fn __str__(&self) -> (text: String) {
        format!("{:?}", self)
    }
}

} // verus!
