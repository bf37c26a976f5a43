use memex::diagram::{
    cell_plan, cells_error, CellPlan, DrawioError,
    clean_value, default_background_color, default_fill_style, default_stroke_color,
    default_stroke_style, eid, map_color, parse_style, shape_type,
};

#[test]
fn strips_html_labels() {
    assert_eq!(clean_value("<b>Hi</b>&nbsp;there"), "Hi there");
    assert_eq!(clean_value("line1<br>line2"), "line1\nline2");
}

#[test]
fn clean_value_decodes_entities_once() {
    assert_eq!(clean_value("a &amp;lt; b"), "a &lt; b");
    assert_eq!(clean_value("&lt;tag&gt;"), "<tag>");
    assert_eq!(clean_value("x<br/>y<br />z"), "x\ny\nz");
    assert_eq!(clean_value("  &quot;q&quot; &#39;s&#39;  "), "\"q\" 's'");
}

#[test]
fn style_strings_parse_into_settings() {
    let s = parse_style("rounded=1;fillColor=#dae8fc; strokeColor=#6c8ebf ;ellipse;;");
    assert_eq!(s.get("rounded").map(|v| v.as_str()), Some("1"));
    assert_eq!(s.get("fillColor").map(|v| v.as_str()), Some("#dae8fc"));
    assert_eq!(s.get("strokeColor").map(|v| v.as_str()), Some("#6c8ebf"));
    assert_eq!(s.get("ellipse").map(|v| v.as_str()), Some("true"));
    assert!(!s.contains_key("missing"));
    assert_eq!(shape_type(&s), "ellipse");
    let s = parse_style("a=1;a=2;b=x=y");
    assert_eq!(s.get("a").map(|v| v.as_str()), Some("2"));
    assert_eq!(s.get("b").map(|v| v.as_str()), Some("x=y"));
    assert_eq!(shape_type(&s), "rectangle");
    assert_eq!(shape_type(&parse_style("rhombus;text")), "diamond");
    assert_eq!(shape_type(&parse_style("text;whiteSpace=wrap")), "text");
}

#[test]
fn colors_map_none_to_transparent() {
    assert_eq!(map_color("none"), "transparent");
    assert_eq!(map_color("NoNe"), "transparent");
    assert_eq!(map_color("#000000"), "#000000");
}

#[test]
fn element_ids_count_up() {
    let mut counter = 0usize;
    assert_eq!(eid(&mut counter), "dio-1");
    assert_eq!(eid(&mut counter), "dio-2");
    let mut counter = 41usize;
    assert_eq!(eid(&mut counter), "dio-42");
    assert_eq!(counter, 42);
}

#[test]
fn default_styles() {
    assert_eq!(default_stroke_color(), "#1e1e1e");
    assert_eq!(default_background_color(), "transparent");
    assert_eq!(default_fill_style(), "solid");
    assert_eq!(default_stroke_style(), "solid");
}

#[test]
fn cell_lists_without_cells_are_refused() {
    assert_eq!(cells_error(0, true), Some(DrawioError::Compressed));
    assert_eq!(cells_error(0, false), Some(DrawioError::NoCells));
    assert_eq!(cells_error(3, true), None);
    assert_eq!(
        DrawioError::Compressed.message(),
        "this drawio file looks compressed; export as uncompressed XML and retry"
    );
}

#[test]
fn cells_become_text_shapes_arrows_or_nothing() {
    assert!(matches!(cell_plan(true, false, true, "text;html=1", "Hi<br>there", 0), CellPlan::Text(t) if t == "Hi\nthere"));
    assert!(matches!(cell_plan(true, false, true, "text;", "  ", 0), CellPlan::Skip));
    assert!(matches!(cell_plan(true, false, true, "ellipse;", "Node", 0), CellPlan::Shape("ellipse", Some(l)) if l == "Node"));
    assert!(matches!(cell_plan(true, false, true, "", "", 0), CellPlan::Shape("rectangle", None)));
    assert!(matches!(cell_plan(true, false, false, "", "x", 0), CellPlan::Skip));
    assert!(matches!(cell_plan(false, true, false, "", "", 2), CellPlan::Arrow));
    assert!(matches!(cell_plan(false, true, false, "", "", 1), CellPlan::Skip));
    assert!(matches!(cell_plan(true, true, true, "", "", 5), CellPlan::Shape("rectangle", None)));
    assert!(matches!(cell_plan(false, false, true, "", "v", 3), CellPlan::Skip));
}
