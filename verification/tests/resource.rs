use memex::resource::{is_pdf_path, parse_pdf_link, PdfLinkTarget};

#[test]
fn parses_pdf_page_and_annotation_links() {
    assert_eq!(
        parse_pdf_link("paper.pdf#page=12"),
        Some(("paper.pdf", PdfLinkTarget::Page(12)))
    );
    assert_eq!(
        parse_pdf_link("paper.pdf#annotation=memex:abc"),
        Some(("paper.pdf", PdfLinkTarget::Annotation("memex:abc".into())))
    );
    assert_eq!(parse_pdf_link("paper.pdf#page=0"), None);
    assert_eq!(parse_pdf_link("note#page=1"), None);
}

#[test]
fn pdf_link_edge_cases() {
    assert_eq!(parse_pdf_link("paper.pdf"), None);
    assert_eq!(parse_pdf_link("Paper.PDF#page=+3"), Some(("Paper.PDF", PdfLinkTarget::Page(3))));
    assert_eq!(parse_pdf_link("paper.pdf#page=x"), None);
    assert_eq!(parse_pdf_link("paper.pdf#page="), None);
    assert_eq!(parse_pdf_link("paper.pdf#annotation="), None);
    assert_eq!(parse_pdf_link("paper.pdf#other"), None);
    assert_eq!(
        parse_pdf_link("a.pdf#annotation=x#y"),
        Some(("a.pdf", PdfLinkTarget::Annotation("x#y".into())))
    );
    assert_eq!(parse_pdf_link("a.pdf#page=99999999999999999999999"), None);
}

#[test]
fn pdf_paths() {
    assert!(is_pdf_path("/docs/paper.pdf"));
    assert!(is_pdf_path("Paper.PDF"));
    assert!(!is_pdf_path("notes.md"));
    assert!(!is_pdf_path(".pdf"));
    assert!(!is_pdf_path("pdf"));
}
