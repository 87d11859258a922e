//! The records of the XML document, as plain aggregates.
//!
//! Schema description: <https://dblp.org/faq/16154937.html>

use vstd::prelude::*;

verus! {

/// A calendar date, as the `mdate` attribute of a record gives it.
#[derive(Clone, Copy, Debug, PartialEq, Eq)]
pub struct Date {
    pub year: i32,
    pub month: u32,
    pub day: u32,
}

/// Everything that one document, or one fragment of it, holds: the
/// publications by kind, and the web pages.
#[derive(Debug)]
pub struct RawDblp {
    pub articles: Vec<Article>,
    pub inproceedings: Vec<InProceeding>,
    pub proceedings: Vec<Proceeding>,
    pub books: Vec<Book>,
    pub incollections: Vec<InCollection>,
    pub phd_theses: Vec<PhdThesis>,
    pub masters_theses: Vec<MastersThesis>,
    pub data: Vec<Data>,
    /// Web pages, among them the person records.
    pub web_pages: Vec<WebPage>,
    /// Date last modified, for the entire dataset.
    pub mdate: Option<Date>,
}

/// What every kind of publication record holds.
#[derive(Debug)]
pub struct PublicationRecord {
    /// Key of the record.
    pub key: String,
    /// Date last modified.
    pub mdate: Option<Date>,
    /// Space separated tags specifying the type of record.
    pub publtype: Option<String>,
    /// Year of publication.
    pub year: Option<u32>,
    /// List of authors.
    pub authors: Vec<Author>,
    /// Relation to other records.
    pub relation: Option<Relation>,
    /// School where the work was done.
    pub school: Vec<String>,
    pub publisher: Vec<String>,
    /// Citations in the record.
    pub citations: Vec<String>,
}

/// A `www` element. Person records are among them.
#[derive(Debug)]
pub struct WebPage {
    /// The path to the author's profile, unique to each author.
    pub key: String,
    /// For person records, the first title is always "Home Page".
    pub title: Vec<String>,
    /// Url of the page.
    pub url: Vec<String>,
    /// The names of the author; the first one is the current name.
    pub author: Vec<String>,
}

#[derive(Debug)]
pub struct Person {
    pub key: String,
    pub mdate: Option<Date>,
    pub cdate: Option<String>,
    pub authors: Vec<Author>,
    pub crossref: Option<String>,
}

#[derive(Debug)]
pub struct Author {
    pub name: String,
    pub aux: Option<String>,
    pub bibtex: Option<String>,
    pub orcid: Option<String>,
    pub label: Option<String>,
}

/// Any related items to the publication record.
#[derive(Debug)]
pub struct Relation {
    pub ty: Option<String>,
    pub uri: Option<String>,
    pub label: Option<String>,
    pub sort: Option<u32>,
}

#[derive(Debug)]
pub struct Article(pub PublicationRecord);

#[derive(Debug)]
pub struct InProceeding(pub PublicationRecord);

#[derive(Debug)]
pub struct Proceeding(pub PublicationRecord);

#[derive(Debug)]
pub struct Book(pub PublicationRecord);

#[derive(Debug)]
pub struct InCollection(pub PublicationRecord);

#[derive(Debug)]
pub struct PhdThesis(pub PublicationRecord);

#[derive(Debug)]
pub struct MastersThesis(pub PublicationRecord);

#[derive(Debug)]
pub struct Data(pub PublicationRecord);

/// The names of a list of authors, in order.
pub open spec fn author_names(authors: Seq<Author>) -> Seq<Seq<char>> {
    Seq::new(authors.len(), |i: int| authors[i].name@)
}

} // verus!
