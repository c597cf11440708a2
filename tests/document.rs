use osm_topology::coordinate::Coordinate;
use osm_topology::lexer::{tokenize, TagKind};
use osm_topology::osm::{assemble, parse_document, OsmDocument, ParseError, ResolutionError};

const SCENARIO: &str = "<osm><node id=\"n1\" lat=\"63.40\" lon=\"10.20\"/><node id=\"n2\" lat=\"63.41\" lon=\"10.21\"/><way id=\"w1\"><nd ref=\"n1\"/><nd ref=\"n2\"/><tag k=\"highway\" v=\"residential\"/></way></osm>";

fn coord(negative: bool, digits: u64, scale: usize) -> Coordinate {
    Coordinate { negative, digits, scale }
}

fn ids(doc: &OsmDocument) -> Vec<String> {
    doc.nodes.iter().map(|n| n.id.clone()).collect()
}

fn chars(s: &str) -> Vec<char> {
    s.chars().collect()
}

#[test]
fn scenario_parses_nodes_ways_refs_and_tags() {
    let doc = parse_document(SCENARIO).unwrap();
    assert_eq!(ids(&doc), vec!["n1", "n2"]);
    assert_eq!(doc.nodes[0].lat, coord(false, 6340, 2));
    assert_eq!(doc.nodes[0].lon, coord(false, 1020, 2));
    assert_eq!(doc.nodes[1].lat, coord(false, 6341, 2));
    assert_eq!(doc.ways.len(), 1);
    let w = &doc.ways[0];
    assert_eq!(w.id, "w1");
    let refs: Vec<&str> = w.nds.iter().map(|n| n.node_ref.as_str()).collect();
    assert_eq!(refs, vec!["n1", "n2"]);
    assert_eq!(w.tags.len(), 1);
    assert_eq!(w.tags[0].k, "highway");
    assert_eq!(w.tags[0].v, "residential");
}

#[test]
fn scenario_resolves_way_to_its_nodes() {
    let doc = parse_document(SCENARIO).unwrap();
    let pts = doc.ways[0].points(&doc).unwrap();
    let got: Vec<&str> = pts.iter().map(|n| n.id.as_str()).collect();
    assert_eq!(got, vec!["n1", "n2"]);
    assert_eq!(pts[1].lon, coord(false, 1021, 2));
}

#[test]
fn single_point_way_resolves_to_that_point() {
    let text = "<osm><node id=\"n1\" lat=\"63.41\" lon=\"10.25\"/><way id=\"w\"><nd ref=\"n1\"/></way></osm>";
    let doc = parse_document(text).unwrap();
    let pts = doc.ways[0].points(&doc).unwrap();
    assert_eq!(pts.len(), 1);
    assert_eq!(pts[0].id, "n1");
    assert_eq!(pts[0].lat, coord(false, 6341, 2));
    assert_eq!(pts[0].lon, coord(false, 1025, 2));
    assert!(std::ptr::eq(pts[0], &doc.nodes[0]));
}

#[test]
fn dangling_reference_is_reported() {
    let text = "<osm><node id=\"n1\" lat=\"1\" lon=\"2\"/><way id=\"w\"><nd ref=\"n1\"/><nd ref=\"n99\"/><nd ref=\"n98\"/></way></osm>";
    let doc = parse_document(text).unwrap();
    match doc.ways[0].points(&doc) {
        Err(ResolutionError::DanglingReference(r)) => assert_eq!(r, "n99"),
        Ok(_) => panic!("a dangling reference resolved"),
    }
    match doc.node("n99") {
        Err(ResolutionError::DanglingReference(r)) => assert_eq!(r, "n99"),
        Ok(_) => panic!("a missing node was found"),
    }
}

#[test]
fn duplicate_identifiers_resolve_to_the_first() {
    let text = "<osm><node id=\"x\" lat=\"1\" lon=\"1\"/><node id=\"x\" lat=\"2\" lon=\"2\"/><way id=\"w\"><nd ref=\"x\"/><nd ref=\"x\"/></way></osm>";
    let doc = parse_document(text).unwrap();
    assert_eq!(doc.node("x").unwrap().lat, coord(false, 1, 0));
    let pts = doc.ways[0].points(&doc).unwrap();
    assert_eq!(pts.len(), 2);
    assert!(pts.iter().all(|p| std::ptr::eq(*p, &doc.nodes[0])));
}

#[test]
fn empty_documents_parse() {
    for text in ["<osm></osm>", "<osm/>", "<?xml version=\"1.0\"?>\n<osm version=\"0.6\">\n</osm>\n"] {
        let doc = parse_document(text).unwrap();
        assert!(doc.nodes.is_empty());
        assert!(doc.ways.is_empty());
    }
}

#[test]
fn way_without_references_resolves_to_nothing() {
    let doc = parse_document("<osm><way id=\"w\"/></osm>").unwrap();
    assert_eq!(doc.ways.len(), 1);
    assert!(doc.ways[0].points(&doc).unwrap().is_empty());
}

#[test]
fn other_elements_are_passed_over() {
    let text = "<?xml version=\"1.0\" encoding=\"UTF-8\"?>\n<!-- an extract -->\n<osm version=\"0.6\" generator=\"x\">\n <bounds minlat=\"63.4\" minlon=\"10.2\"/>\n <node id=\"1\" lat=\"63.4\" lon=\"10.2\" visible=\"true\">\n  <tag k=\"name\" v=\"A\"/>\n </node>\n <way id=\"7\">\n  <nd ref=\"1\"/>\n  <nd ref=\"1\"/>\n  <foo><nd ref=\"9\"/></foo>\n </way>\n <relation id=\"3\"><member type=\"way\" ref=\"7\"/></relation>\n</osm>\n";
    let doc = parse_document(text).unwrap();
    assert_eq!(ids(&doc), vec!["1"]);
    assert_eq!(doc.ways.len(), 1);
    assert_eq!(doc.ways[0].nds.len(), 2);
    assert!(doc.ways[0].tags.is_empty());
}

#[test]
fn order_of_ways_and_duplicate_tags_is_kept() {
    let text = "<osm><way id='a'><tag k='x' v='1'/><tag k='x' v='2'/></way><way id='b'/></osm>";
    let doc = parse_document(text).unwrap();
    let ws: Vec<&str> = doc.ways.iter().map(|w| w.id.as_str()).collect();
    assert_eq!(ws, vec!["a", "b"]);
    let tags: Vec<(&str, &str)> = doc.ways[0].tags.iter().map(|t| (t.k.as_str(), t.v.as_str())).collect();
    assert_eq!(tags, vec![("x", "1"), ("x", "2")]);
}

#[test]
fn reference_without_value_is_empty() {
    let doc = parse_document("<osm><way id=\"w\"><nd/><nd ref=\"\"/></way></osm>").unwrap();
    assert_eq!(doc.ways[0].nds.len(), 2);
    assert_eq!(doc.ways[0].nds[0].node_ref, "");
    assert_eq!(doc.ways[0].nds[1].node_ref, "");
}

#[test]
fn attribute_values_are_unescaped() {
    let text = "<osm><way id=\"w\"><tag k=\"name\" v=\"A &amp; B &lt;&#65;&gt;\"/></way></osm>";
    let doc = parse_document(text).unwrap();
    assert_eq!(doc.ways[0].tags[0].v, "A & B <A>");
}

#[test]
fn unknown_entity_is_malformed() {
    let text = "<osm><way id=\"w\"><tag k=\"name\" v=\"&bogus;\"/></way></osm>";
    assert_eq!(parse_document(text).unwrap_err(), ParseError::Malformed);
}

#[test]
fn malformed_markup_is_refused() {
    for text in [
        "",
        "just text",
        "<osm>",
        "<osm><node id=\"1\" lat=\"1\" lon=\"1\"/>",
        "<osm></way>",
        "<osm><a></b></osm>",
        "<osm></osm><osm></osm>",
        "<osm><node id=\"1 lat=\"1\"/></osm>",
        "<osm><node id=1/></osm>",
        "<osm attr=\"x\"",
        "</osm>",
    ] {
        assert_eq!(parse_document(text).unwrap_err(), ParseError::Malformed, "{}", text);
    }
}

#[test]
fn invalid_points_are_refused() {
    for text in [
        "<osm><node lat=\"1\" lon=\"1\"/></osm>",
        "<osm><node id=\"1\" lon=\"1\"/></osm>",
        "<osm><node id=\"1\" lat=\"1\"/></osm>",
        "<osm><node id=\"1\" lat=\"north\" lon=\"1\"/></osm>",
        "<osm><node id=\"1\" lat=\"1.2.3\" lon=\"1\"/></osm>",
        "<osm><node id=\"1\" lat=\"1\" lon=\"\"/></osm>",
    ] {
        assert_eq!(parse_document(text).unwrap_err(), ParseError::InvalidPoint, "{}", text);
    }
}

#[test]
fn invalid_paths_are_refused() {
    for text in [
        "<osm><way><nd ref=\"1\"/></way></osm>",
        "<osm><way id=\"w\"><tag k=\"highway\"/></way></osm>",
        "<osm><way id=\"w\"><tag v=\"x\"/></way></osm>",
    ] {
        assert_eq!(parse_document(text).unwrap_err(), ParseError::InvalidPath, "{}", text);
    }
}

#[test]
fn coordinates_are_read_exactly() {
    assert_eq!(Coordinate::parse(&chars("63.40")), Some(coord(false, 6340, 2)));
    assert_eq!(Coordinate::parse(&chars("-10.5")), Some(coord(true, 105, 1)));
    assert_eq!(Coordinate::parse(&chars("+7")), Some(coord(false, 7, 0)));
    assert_eq!(Coordinate::parse(&chars(".5")), Some(coord(false, 5, 1)));
    assert_eq!(Coordinate::parse(&chars("3.")), Some(coord(false, 3, 0)));
    assert_eq!(Coordinate::parse(&chars("18446744073709551615")), Some(coord(false, u64::MAX, 0)));
    for bad in ["", "-", ".", "-.", "1e5", "1.2.3", " 1", "18446744073709551616", "NaN", "inf"] {
        assert_eq!(Coordinate::parse(&chars(bad)), None, "{}", bad);
    }
}

#[test]
fn tags_come_in_order() {
    let tags = tokenize("<a x='1'><b/></a>").unwrap();
    let kinds: Vec<TagKind> = tags.iter().map(|t| t.kind).collect();
    assert_eq!(kinds, vec![TagKind::Open, TagKind::Empty, TagKind::Close]);
    assert_eq!(tags[0].attrs[0].key, "x");
    assert_eq!(tags[0].attrs[0].value, "1");
    let doc = assemble(&tags).unwrap();
    assert!(doc.nodes.is_empty());
    assert!(tokenize("<a x='1>").is_none());
}

#[test]
fn only_children_of_the_root_count() {
    let text = "<osm><group><node id=\"a\" lat=\"1\" lon=\"1\"/><way id=\"v\"/></group><node id=\"b\" lat=\"2\" lon=\"2\"/><node id=\"c\" lat=\"3\" lon=\"3\"/><way id=\"w\"><nd ref=\"c\"/><nd ref=\"b\"/></way></osm>";
    let doc = parse_document(text).unwrap();
    assert_eq!(ids(&doc), vec!["b", "c"]);
    assert_eq!(doc.ways.len(), 1);
    let pts = doc.ways[0].points(&doc).unwrap();
    let got: Vec<&str> = pts.iter().map(|n| n.id.as_str()).collect();
    assert_eq!(got, vec!["c", "b"]);
}
