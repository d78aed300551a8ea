use node_state::size::{apply_attribute, largest_child, padding_side, parse_size_mode};
use node_state::{Attribute, Axis, InvalidAttributeValue, Node, Size, SizeMode};

fn sized_node(tag: Option<&str>, attributes: &[(&str, &str)]) -> Node {
    Node {
        id: 1,
        tag: tag.map(|t| t.to_string()),
        text: None,
        attributes: attributes
            .iter()
            .map(|(name, value)| Attribute { name: name.to_string(), value: value.to_string() })
            .collect(),
    }
}

fn manual(width: i32, height: i32) -> Size {
    Size {
        width: SizeMode::Manual(width),
        height: SizeMode::Manual(height),
        padding: (0, 0, 0, 0),
        overflow: 0,
    }
}

fn evaluated(tag: Option<&str>, attributes: &[(&str, &str)], children: &Vec<Size>) -> Size {
    let mut size = Size::default();
    let outcome = size.reduce(&sized_node(tag, attributes), children);
    assert!(outcome.is_ok());
    size
}

#[test]
fn defaults_are_auto_and_zero() {
    assert_eq!(SizeMode::default(), SizeMode::Auto);
    let size = Size::default();
    assert_eq!(size.width, SizeMode::Auto);
    assert_eq!(size.height, SizeMode::Auto);
    assert_eq!(size.padding, (0, 0, 0, 0));
    assert_eq!(size.overflow, 0);
}

#[test]
fn size_mode_equality_is_structural() {
    assert_eq!(SizeMode::Auto, SizeMode::Auto);
    assert_eq!(SizeMode::Percentage(50), SizeMode::Percentage(50));
    assert_ne!(SizeMode::Percentage(50), SizeMode::Percentage(51));
    assert_ne!(SizeMode::Percentage(50), SizeMode::Manual(50));
}

#[test]
fn parent_fits_largest_child() {
    let children = vec![manual(3, 4), manual(7, 1), manual(2, 9)];
    let size = evaluated(Some("div"), &[], &children);
    assert_eq!(size.width, SizeMode::Manual(7));
    assert_eq!(size.height, SizeMode::Manual(9));
    assert_eq!(size.padding, (0, 0, 0, 0));
    assert_eq!(size.overflow, 0);
}

#[test]
fn explicit_percentage_overrides_children() {
    let children = vec![manual(3, 4), manual(7, 1), manual(2, 9)];
    let size = evaluated(Some("div"), &[("width", "50%")], &children);
    assert_eq!(size.width, SizeMode::Percentage(50));
    assert_eq!(size.height, SizeMode::Manual(9));
    let alone = evaluated(Some("div"), &[("width", "50%")], &Vec::new());
    assert_eq!(alone.width, SizeMode::Percentage(50));
    assert_eq!(alone.height, SizeMode::Auto);
}

#[test]
fn children_that_are_not_manual_count_as_zero() {
    let mut auto = Size::default();
    auto.height = SizeMode::Percentage(80);
    let size = evaluated(None, &[], &vec![auto]);
    assert_eq!(size.width, SizeMode::Manual(0));
    assert_eq!(size.height, SizeMode::Manual(0));
    let mixed = evaluated(None, &[], &vec![manual(-4, -2), auto]);
    assert_eq!(mixed.width, SizeMode::Manual(0));
    assert_eq!(mixed.height, SizeMode::Manual(0));
    let negative = evaluated(None, &[], &vec![manual(-4, -2), manual(-9, -1)]);
    assert_eq!(negative.width, SizeMode::Manual(-4));
    assert_eq!(negative.height, SizeMode::Manual(-1));
}

#[test]
fn text_container_does_not_fit_children() {
    let children = vec![manual(3, 4)];
    let size = evaluated(Some("p"), &[], &children);
    assert_eq!(size, Size::default());
    let declared = evaluated(Some("p"), &[("height", "12")], &children);
    assert_eq!(declared.width, SizeMode::Auto);
    assert_eq!(declared.height, SizeMode::Manual(12));
}

#[test]
fn node_without_children_stays_auto() {
    let size = evaluated(Some("div"), &[], &Vec::new());
    assert_eq!(size, Size::default());
}

#[test]
fn padding_ten_gives_five_per_side() {
    let size = evaluated(None, &[("padding", "10")], &Vec::new());
    assert_eq!(size.padding, (5, 5, 5, 5));
}

#[test]
fn padding_eleven_truncates_to_five() {
    let size = evaluated(None, &[("padding", "11")], &Vec::new());
    assert_eq!(size.padding, (5, 5, 5, 5));
}

#[test]
fn padding_side_rounds_toward_zero() {
    assert_eq!(padding_side(0), 0);
    assert_eq!(padding_side(1), 0);
    assert_eq!(padding_side(-1), 0);
    assert_eq!(padding_side(-11), -5);
    assert_eq!(padding_side(-10), -5);
    assert_eq!(padding_side(i32::MAX), 1073741823);
    assert_eq!(padding_side(i32::MIN), -1073741824);
    let mut total: i32 = -50;
    while total <= 50 {
        assert_eq!(padding_side(total), total / 2);
        total += 1;
    }
}

#[test]
fn overflow_is_read_as_is() {
    let size = evaluated(None, &[("overflow", "42")], &Vec::new());
    assert_eq!(size.overflow, 42);
    let negative = evaluated(None, &[("overflow", "-3")], &Vec::new());
    assert_eq!(negative.overflow, -3);
}

#[test]
fn stretch_is_full_percentage() {
    let children = vec![manual(3, 4)];
    let size = evaluated(None, &[("width", "stretch"), ("height", "stretch")], &children);
    assert_eq!(size.width, SizeMode::Percentage(100));
    assert_eq!(size.height, SizeMode::Percentage(100));
}

#[test]
fn auto_overrides_child_baseline() {
    let children = vec![manual(3, 4)];
    let size = evaluated(None, &[("width", "auto")], &children);
    assert_eq!(size.width, SizeMode::Auto);
    assert_eq!(size.height, SizeMode::Manual(4));
}

#[test]
fn size_mode_grammar() {
    assert_eq!(parse_size_mode("stretch"), Some(SizeMode::Percentage(100)));
    assert_eq!(parse_size_mode("auto"), Some(SizeMode::Auto));
    assert_eq!(parse_size_mode("50%"), Some(SizeMode::Percentage(50)));
    assert_eq!(parse_size_mode("150%"), Some(SizeMode::Percentage(150)));
    assert_eq!(parse_size_mode("-5%"), Some(SizeMode::Percentage(-5)));
    assert_eq!(parse_size_mode("%50"), Some(SizeMode::Percentage(50)));
    assert_eq!(parse_size_mode("5%0"), Some(SizeMode::Percentage(50)));
    assert_eq!(parse_size_mode("10"), Some(SizeMode::Manual(10)));
    assert_eq!(parse_size_mode("-10"), Some(SizeMode::Manual(-10)));
    assert_eq!(parse_size_mode("+10"), Some(SizeMode::Manual(10)));
    assert_eq!(parse_size_mode("abc"), None);
    assert_eq!(parse_size_mode(""), None);
    assert_eq!(parse_size_mode("%"), None);
    assert_eq!(parse_size_mode("a%"), None);
    assert_eq!(parse_size_mode("Stretch"), None);
    assert_eq!(parse_size_mode("AUTO"), None);
    assert_eq!(parse_size_mode("10px"), None);
}

#[test]
fn last_declaration_wins() {
    let size = evaluated(None, &[("width", "10"), ("width", "20%"), ("width", "30")], &Vec::new());
    assert_eq!(size.width, SizeMode::Manual(30));
    let mixed = evaluated(
        None,
        &[("padding", "4"), ("height", "1"), ("padding", "8"), ("height", "auto")],
        &vec![manual(1, 1)],
    );
    assert_eq!(mixed.height, SizeMode::Auto);
    assert_eq!(mixed.width, SizeMode::Manual(1));
    assert_eq!(mixed.padding, (4, 4, 4, 4));
}

#[test]
fn unknown_attribute_names_are_ignored() {
    let size = evaluated(
        None,
        &[("color", "abc"), ("width", "10"), ("background", "red"), ("Width", "x")],
        &Vec::new(),
    );
    assert_eq!(size.width, SizeMode::Manual(10));
    assert_eq!(size.height, SizeMode::Auto);
}

#[test]
fn invalid_value_keeps_stored_size() {
    let mut size = manual(5, 6);
    let node = sized_node(Some("div"), &[("height", "20"), ("width", "abc"), ("padding", "x")]);
    let outcome = size.reduce(&node, &vec![manual(1, 1)]);
    assert_eq!(
        outcome,
        Err(InvalidAttributeValue {
            node: 1,
            attribute: "width".to_string(),
            raw_value: "abc".to_string(),
        })
    );
    assert_eq!(size, manual(5, 6));
}

#[test]
fn each_attribute_reports_its_invalid_value() {
    let names: [&str; 4] = ["width", "height", "padding", "overflow"];
    for name in names {
        let mut size = Size::default();
        let outcome = size.reduce(&sized_node(None, &[(name, "1x")]), &Vec::new());
        assert_eq!(
            outcome,
            Err(InvalidAttributeValue {
                node: 1,
                attribute: name.to_string(),
                raw_value: "1x".to_string(),
            })
        );
        assert_eq!(size, Size::default());
    }
    let mut size = Size::default();
    assert!(size.reduce(&sized_node(None, &[("padding", "50%")]), &Vec::new()).is_err());
    assert!(size.reduce(&sized_node(None, &[("overflow", "auto")]), &Vec::new()).is_err());
}

#[test]
fn reduce_reports_change() {
    let mut size = Size::default();
    let node = sized_node(None, &[("width", "10")]);
    assert_eq!(size.reduce(&node, &Vec::new()), Ok(true));
    assert_eq!(size.width, SizeMode::Manual(10));
    assert_eq!(size.reduce(&node, &Vec::new()), Ok(false));
    assert_eq!(size.width, SizeMode::Manual(10));
    let wider = sized_node(None, &[("width", "11")]);
    assert_eq!(size.reduce(&wider, &Vec::new()), Ok(true));
    assert_eq!(size.width, SizeMode::Manual(11));
}

#[test]
fn reduce_detects_change_in_each_field() {
    let base = evaluated(None, &[("width", "1"), ("height", "2"), ("padding", "6"), ("overflow", "4")], &Vec::new());
    let edits: [[(&str, &str); 4]; 4] = [
        [("width", "9"), ("height", "2"), ("padding", "6"), ("overflow", "4")],
        [("width", "1"), ("height", "9"), ("padding", "6"), ("overflow", "4")],
        [("width", "1"), ("height", "2"), ("padding", "9"), ("overflow", "4")],
        [("width", "1"), ("height", "2"), ("padding", "6"), ("overflow", "9")],
    ];
    for edit in edits {
        let mut size = base;
        assert_eq!(size.reduce(&sized_node(None, &edit), &Vec::new()), Ok(true));
    }
    let mut size = base;
    let same = [("width", "1"), ("height", "2"), ("padding", "7"), ("overflow", "4")];
    assert_eq!(size.reduce(&sized_node(None, &same), &Vec::new()), Ok(false));
}

#[test]
fn same_as_compares_every_field() {
    let size = manual(1, 2);
    assert!(size.same_as(&manual(1, 2)));
    assert!(!size.same_as(&manual(1, 3)));
    assert!(!size.same_as(&manual(2, 2)));
    let mut padded = size;
    padded.padding = (0, 0, 0, 1);
    assert!(!size.same_as(&padded));
    let mut overflowing = size;
    overflowing.overflow = 1;
    assert!(!size.same_as(&overflowing));
}

#[test]
fn largest_child_along_each_axis() {
    let children = vec![manual(3, 40), manual(7, 10), manual(2, 90)];
    assert_eq!(largest_child(&children, Axis::Horizontal), 7);
    assert_eq!(largest_child(&children, Axis::Vertical), 90);
    assert_eq!(largest_child(&Vec::new(), Axis::Horizontal), 0);
    assert_eq!(largest_child(&vec![manual(-3, -4)], Axis::Vertical), -4);
}

#[test]
fn apply_attribute_touches_one_field() {
    let size = manual(1, 2);
    let width = Attribute { name: "width".to_string(), value: "5".to_string() };
    assert_eq!(apply_attribute(size, &width), Some(manual(5, 2)));
    let other = Attribute { name: "id".to_string(), value: "??".to_string() };
    assert_eq!(apply_attribute(size, &other), Some(size));
    let bad = Attribute { name: "overflow".to_string(), value: "".to_string() };
    assert_eq!(apply_attribute(size, &bad), None);
}

#[test]
fn size_mask_names_what_sizing_reads() {
    let mask = Size::node_mask();
    assert!(mask.text);
    assert!(mask.tag);
    for name in ["width", "height", "padding", "overflow"] {
        assert!(mask.contains_attribute(name));
    }
    assert!(!mask.contains_attribute("background"));
    assert!(!mask.contains_attribute(""));
    let mut sorted = mask.attributes.clone();
    sorted.sort();
    sorted.dedup();
    assert_eq!(sorted, mask.attributes);
}

#[test]
fn sizing_sees_only_its_masked_view() {
    let node = sized_node(
        Some("div"),
        &[("title", "x"), ("width", "10"), ("background", "red"), ("padding", "3")],
    );
    let masked = node.restrict(&Size::node_mask());
    assert_eq!(masked, sized_node(Some("div"), &[("width", "10"), ("padding", "3")]));
    let children = vec![manual(4, 4)];
    let mut raw = Size::default();
    let mut seen = Size::default();
    assert_eq!(raw.reduce(&node, &children), seen.reduce(&masked, &children));
    assert_eq!(raw, seen);
}

#[test]
fn unsupported_attributes_are_listed_in_order() {
    let node = sized_node(
        None,
        &[("title", "x"), ("width", "10"), ("background", "red"), ("padding", "3"), ("title", "y")],
    );
    assert_eq!(
        Size::unsupported_attributes(&node),
        vec!["title".to_string(), "background".to_string(), "title".to_string()]
    );
    let known = sized_node(None, &[("width", "1"), ("height", "2"), ("padding", "3"), ("overflow", "4")]);
    assert_eq!(Size::unsupported_attributes(&known), Vec::<String>::new());
    assert_eq!(evaluated(None, &[("title", "x"), ("title", "y")], &Vec::new()), Size::default());
}

#[test]
fn names_that_sizing_reads_are_in_its_mask() {
    let mask = Size::node_mask();
    let stems: [&str; 10] =
        ["width", "height", "padding", "overflow", "background", "color", "w", "", "tag", "text"];
    let mut names: Vec<String> = Vec::new();
    for stem in stems {
        names.push(stem.to_string());
        names.push(stem.to_uppercase());
        names.push(format!("{}s", stem));
        names.push(format!(" {}", stem));
    }
    let stored = manual(1, 2);
    for name in names {
        let mut valid = stored;
        let first = valid.reduce(&sized_node(None, &[(name.as_str(), "77")]), &vec![manual(1, 2)]);
        let mut invalid = stored;
        let second = invalid.reduce(&sized_node(None, &[(name.as_str(), "?")]), &vec![manual(1, 2)]);
        let read = first != Ok(false) || second != Ok(false);
        assert_eq!(read, mask.contains_attribute(&name), "on {:?}", name);
    }
}
