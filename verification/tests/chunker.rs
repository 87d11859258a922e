use dblp::dataset::{
    choose_step, is_gzip_path, make_closing_tag, select_xml_path, strip_references,
    ChunkedXmlViewer, TagKind, XML_END_TAG, XML_GZ_PATH, XML_PATH, XML_REF_REGEX,
    XML_SELF_CLOSE_TAG, XML_START_TAG,
};
use regex::Regex;

#[test]
fn test_match_regex() {
    let re_start = Regex::new(XML_START_TAG).unwrap();
    let re_end = Regex::new(XML_END_TAG).unwrap();
    let re_self_close = Regex::new(XML_SELF_CLOSE_TAG).unwrap();

    let start_tags = &["<open asd='123'>", "<open>"];
    let end_tags = &["</close>", "/>"];
    let self_close_tags = &["<self_close/>", "<self_close asd='123'/>"];

    for tag in start_tags {
        assert!(re_start.is_match(tag));
    }

    for tag in end_tags {
        assert!(re_end.is_match(tag));
    }

    for tag in self_close_tags {
        assert!(re_self_close.is_match(tag));
    }
}

#[test]
fn reference_pattern_matches_named_entities_only() {
    let re = Regex::new(XML_REF_REGEX).unwrap();
    assert!(re.is_match("&amp;"));
    assert!(re.is_match("&Agrave;"));
    assert!(!re.is_match("&;"));
    assert!(!re.is_match("&#123;"));
    assert!(!re.is_match("& amp;"));
}

#[test]
fn strip_removes_references() {
    assert_eq!(
        strip_references("Tom &amp; Jerry &reg;"),
        Some("Tom  Jerry ".to_string())
    );
}

#[test]
fn strip_keeps_text_without_references() {
    assert_eq!(strip_references(""), Some(String::new()));
    assert_eq!(
        strip_references("<a>plain & simple; &#38; &;</a>"),
        Some("<a>plain & simple; &#38; &;</a>".to_string())
    );
}

#[test]
fn strip_twice_equals_strip_once_on_clean_result() {
    let once = strip_references("x &lt;y&gt; &uuml;ber &quot;z&quot;").unwrap();
    assert_eq!(once, "x y ber z");
    let twice = strip_references(&once).unwrap();
    assert_eq!(twice, once);
}

#[test]
fn strip_can_uncover_a_new_reference() {
    let once = strip_references("&a&b;;").unwrap();
    assert_eq!(once, "&a;");
    assert_eq!(strip_references(&once).unwrap(), "");
}

#[test]
fn minimal_chunker() {
    let mut viewer = ChunkedXmlViewer::from_str("<dblp><a><b/></a><c>x</c></dblp>", 1).unwrap();
    assert_eq!(
        viewer.next_chunk(),
        Some("<dblp><a><b/></a></dblp>".to_string())
    );
    assert_eq!(viewer.next_chunk(), Some("<dblp><c>x</c></dblp>".to_string()));
    assert_eq!(viewer.next_chunk(), None);
    assert_eq!(viewer.next_chunk(), None);
}

#[test]
fn chunk_holds_up_to_chunk_size_elements() {
    let xml = "<dblp><a>1</a><b>2</b><c>3</c></dblp>";
    let mut viewer = ChunkedXmlViewer::from_str(xml, 2).unwrap();
    assert_eq!(
        viewer.next_chunk(),
        Some("<dblp><a>1</a><b>2</b></dblp>".to_string())
    );
    assert_eq!(viewer.next_chunk(), Some("<dblp><c>3</c></dblp>".to_string()));
    assert_eq!(viewer.next_chunk(), None);

    let mut all = ChunkedXmlViewer::from_str(xml, 10).unwrap();
    assert_eq!(all.next_chunk(), Some(xml.to_string()));
    assert_eq!(all.next_chunk(), None);
}

#[test]
fn chunk_size_zero_gives_no_chunk() {
    let mut viewer = ChunkedXmlViewer::from_str("<dblp><a>1</a></dblp>", 0).unwrap();
    assert_eq!(viewer.next_chunk(), None);
    assert_eq!(viewer.next_element(), Some("<a>1</a>"));
}

#[test]
fn elements_cover_the_text_without_gaps() {
    let body = "\n<article key=\"k1\"><title>A <i>nested</i> one</title><ee/></article>\n<www key=\"w\"/>\n<book>\u{e9}t\u{e9}</book>";
    let xml = format!("<dblp>{}\n</dblp>", body);
    let mut viewer = ChunkedXmlViewer::from_str(&xml, 1).unwrap();
    let mut seen = String::new();
    let first = viewer.next_element().unwrap();
    assert_eq!(
        first,
        "\n<article key=\"k1\"><title>A <i>nested</i> one</title><ee/></article>"
    );
    seen.push_str(first);
    let second = viewer.next_element().unwrap();
    assert_eq!(second, "\n<www key=\"w\"/>");
    seen.push_str(second);
    let third = viewer.next_element().unwrap();
    assert_eq!(third, "\n<book>\u{e9}t\u{e9}</book>");
    seen.push_str(third);
    assert_eq!(viewer.next_element(), None);
    assert_eq!(seen, body);
}

#[test]
fn element_that_never_closes_is_not_handed_out() {
    let mut viewer = ChunkedXmlViewer::from_str("<dblp><a><b>", 1).unwrap();
    assert_eq!(viewer.next_element(), None);
    assert_eq!(viewer.next_chunk(), None);
}

#[test]
fn no_viewer_without_an_opening_tag() {
    assert!(ChunkedXmlViewer::from_str("no tags here", 3).is_none());
    assert!(ChunkedXmlViewer::from_str("", 3).is_none());
    assert!(ChunkedXmlViewer::from_str("</a>", 3).is_none());
}

#[test]
fn root_without_children() {
    let mut viewer = ChunkedXmlViewer::from_str("<dblp></dblp>", 4).unwrap();
    assert_eq!(viewer.next_element(), None);
    assert_eq!(viewer.next_chunk(), None);
}

#[test]
fn text_before_the_root_is_skipped() {
    let xml = "<?xml version=\"1.0\"?>\n<dblp><a/></dblp>";
    let mut viewer = ChunkedXmlViewer::from_str(xml, 5).unwrap();
    assert_eq!(viewer.next_chunk(), Some("<dblp><a/></dblp>".to_string()));
    assert_eq!(viewer.next_chunk(), None);
}

#[test]
fn closing_tag_strips_angle_brackets() {
    assert_eq!(make_closing_tag("<dblp>"), "</dblp>");
    assert_eq!(make_closing_tag("<dblp"), "</dblp>");
    assert_eq!(make_closing_tag("<<a>b>>"), "</a>b>");
    assert_eq!(make_closing_tag("<>"), "</>");
    assert_eq!(make_closing_tag(""), "</>");
}

#[test]
fn step_takes_the_earlier_of_opening_and_closing() {
    assert_eq!(
        choose_step(Some((3, 6)), Some((8, 12)), None),
        Some((TagKind::Opening, 6))
    );
    assert_eq!(
        choose_step(Some((9, 12)), Some((1, 5)), None),
        Some((TagKind::Closing, 5))
    );
    assert_eq!(choose_step(Some((0, 2)), None, None), Some((TagKind::Opening, 2)));
    assert_eq!(choose_step(None, Some((4, 8)), None), Some((TagKind::Closing, 8)));
    assert_eq!(choose_step(None, None, None), None);
}

#[test]
fn step_rejects_a_tie() {
    assert_eq!(choose_step(Some((2, 4)), Some((2, 6)), None), None);
    assert_eq!(choose_step(Some((2, 4)), Some((2, 6)), Some((2, 9))), None);
}

#[test]
fn step_takes_self_closing_only_when_strictly_first() {
    assert_eq!(
        choose_step(Some((5, 7)), Some((9, 11)), Some((1, 4))),
        Some((TagKind::SelfClosing, 4))
    );
    assert_eq!(
        choose_step(Some((0, 2)), Some((2, 4)), Some((0, 4))),
        Some((TagKind::Opening, 2))
    );
    assert_eq!(
        choose_step(Some((5, 7)), Some((1, 3)), Some((1, 9))),
        Some((TagKind::Closing, 3))
    );
    assert_eq!(choose_step(None, None, Some((3, 8))), Some((TagKind::SelfClosing, 8)));
    assert_eq!(
        choose_step(None, Some((6, 8)), Some((3, 8))),
        Some((TagKind::SelfClosing, 8))
    );
}

#[test]
fn source_selection_prefers_given_path_then_plain_xml() {
    assert_eq!(select_xml_path(Some("my.xml"), true, true), Some("my.xml"));
    assert_eq!(select_xml_path(Some("my.xml.gz"), false, false), Some("my.xml.gz"));
    assert_eq!(select_xml_path(None, true, true), Some(XML_PATH));
    assert_eq!(select_xml_path(None, false, true), Some(XML_PATH));
    assert_eq!(select_xml_path(None, true, false), Some(XML_GZ_PATH));
    assert_eq!(select_xml_path(None, false, false), None);
}

#[test]
fn gzip_is_told_by_the_name() {
    assert!(is_gzip_path("dblp.xml.gz"));
    assert!(is_gzip_path(".gz"));
    assert!(!is_gzip_path("dblp.xml"));
    assert!(!is_gzip_path("gz"));
    assert!(!is_gzip_path(""));
    assert!(!is_gzip_path("dblp.gz.xml"));
}

fn is_well_formed(document: &str, root: &str) -> bool {
    let mut reader = quick_xml::Reader::from_str(document);
    let mut depth = 0usize;
    let mut roots = 0usize;
    loop {
        match reader.read_event() {
            Ok(quick_xml::events::Event::Start(tag)) => {
                if depth == 0 {
                    roots += 1;
                    if tag.name().into_inner() != root {
                        return false;
                    }
                }
                depth += 1;
            }
            Ok(quick_xml::events::Event::End(_)) => {
                if depth == 0 {
                    return false;
                }
                depth -= 1;
            }
            Ok(quick_xml::events::Event::Eof) => return depth == 0 && roots == 1,
            Ok(_) => {}
            Err(_) => return false,
        }
    }
}

#[test]
fn fragments_are_documents_of_their_own() {
    let xml = "<dblp>\n<article mdate=\"2017-07-12\" key=\"a/1\"><author>A. One</author><title>On <i>x</i> and <sub>y</sub>.</title><ee type=\"oa\"/></article>\n<www key=\"h/1\"><title>Home Page</title></www>\n<book key=\"b/1\"><publisher>P</publisher></book>\n<phdthesis key=\"t/1\"/>\n</dblp>\n";
    for size in 1..6 {
        let mut viewer = ChunkedXmlViewer::from_str(xml, size).unwrap();
        let mut fragments = 0;
        while let Some(fragment) = viewer.next_chunk() {
            assert!(is_well_formed(&fragment, "dblp"), "{}", fragment);
            assert!(fragment.starts_with("<dblp>"));
            assert!(fragment.ends_with("</dblp>"));
            fragments += 1;
        }
        assert_eq!(fragments, (4 + size - 1) / size);
    }
}
