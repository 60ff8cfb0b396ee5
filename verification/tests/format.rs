use oxigraph::io::format::{DatasetFormat, GraphFormat};

#[test]
fn a_media_type_names_a_graph_format() {
    assert_eq!(GraphFormat::from_media_type("application/n-triples"), Some(GraphFormat::NTriples));
    assert_eq!(GraphFormat::from_media_type("text/plain"), Some(GraphFormat::NTriples));
    assert_eq!(GraphFormat::from_media_type("text/turtle"), Some(GraphFormat::Turtle));
    assert_eq!(GraphFormat::from_media_type("application/turtle"), Some(GraphFormat::Turtle));
    assert_eq!(GraphFormat::from_media_type("application/x-turtle"), Some(GraphFormat::Turtle));
    assert_eq!(GraphFormat::from_media_type("application/rdf+xml"), Some(GraphFormat::RdfXml));
    assert_eq!(GraphFormat::from_media_type("application/xml"), Some(GraphFormat::RdfXml));
    assert_eq!(GraphFormat::from_media_type("text/xml"), Some(GraphFormat::RdfXml));
    assert_eq!(GraphFormat::from_media_type("application/trig"), None);
    assert_eq!(GraphFormat::from_media_type("text/turtles"), None);
    assert_eq!(GraphFormat::from_media_type("Text/Turtle"), None);
    assert_eq!(GraphFormat::from_media_type(""), None);
}

#[test]
fn parameters_and_white_space_do_not_count() {
    assert_eq!(GraphFormat::from_media_type("text/turtle; charset=utf-8"), Some(GraphFormat::Turtle));
    assert_eq!(GraphFormat::from_media_type("  text/turtle \t;charset=utf-8;q=1"), Some(GraphFormat::Turtle));
    assert_eq!(GraphFormat::from_media_type("\ttext/plain\r\n"), Some(GraphFormat::NTriples));
    assert_eq!(GraphFormat::from_media_type(";text/turtle"), None);
    assert_eq!(GraphFormat::from_media_type("text/ turtle"), None);
    assert_eq!(GraphFormat::from_media_type("   "), None);
    assert_eq!(DatasetFormat::from_media_type(" application/n-quads;x"), Some(DatasetFormat::NQuads));
}

#[test]
fn a_media_type_names_a_dataset_format() {
    assert_eq!(DatasetFormat::from_media_type("application/n-quads"), Some(DatasetFormat::NQuads));
    assert_eq!(DatasetFormat::from_media_type("text/x-nquads"), Some(DatasetFormat::NQuads));
    assert_eq!(DatasetFormat::from_media_type("text/nquads"), Some(DatasetFormat::NQuads));
    assert_eq!(DatasetFormat::from_media_type("application/trig"), Some(DatasetFormat::TriG));
    assert_eq!(DatasetFormat::from_media_type("application/x-trig"), Some(DatasetFormat::TriG));
    assert_eq!(DatasetFormat::from_media_type("text/turtle"), None);
}

#[test]
fn formats_have_a_media_type_and_an_extension() {
    for format in [GraphFormat::NTriples, GraphFormat::Turtle, GraphFormat::RdfXml] {
        assert_eq!(GraphFormat::from_media_type(format.media_type()), Some(format));
    }
    for format in [DatasetFormat::NQuads, DatasetFormat::TriG] {
        assert_eq!(DatasetFormat::from_media_type(format.media_type()), Some(format));
    }
    assert_eq!(GraphFormat::NTriples.file_extension(), "nt");
    assert_eq!(GraphFormat::Turtle.file_extension(), "ttl");
    assert_eq!(GraphFormat::RdfXml.file_extension(), "rdf");
    assert_eq!(DatasetFormat::NQuads.file_extension(), "nq");
    assert_eq!(DatasetFormat::TriG.file_extension(), "trig");
}
