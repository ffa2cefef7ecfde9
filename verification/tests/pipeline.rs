use xml_de::buffer::RootXmlBuffer;
use xml_de::de::next_tracked;
use xml_de::error::Error;
use xml_de::events::XmlEvent;
use xml_de::seq::{SeqAccess, SeqType};
use xml_de::source::EventSource;
use xml_de::state::DeserializerState;
use xml_de::var::EnumAccess;

fn root_from(doc: &str) -> RootXmlBuffer {
    RootXmlBuffer::new(EventSource::from_bytes(doc.as_bytes().to_vec()))
}

fn start(name: &str) -> XmlEvent {
    XmlEvent::StartElement {
        name: name.to_string(),
        attributes: Vec::new(),
    }
}

fn end(name: &str) -> XmlEvent {
    XmlEvent::EndElement {
        name: name.to_string(),
    }
}

#[test]
fn filters_insignificant_events() {
    let mut root = root_from("<?xml version=\"1.0\"?><!-- notes --><a> <b/> </a>");
    assert_eq!(root.next().unwrap(), start("a"));
    assert_eq!(root.next().unwrap(), start("b"));
    assert_eq!(root.next().unwrap(), end("b"));
    assert_eq!(root.next().unwrap(), end("a"));
    assert_eq!(root.next().unwrap(), XmlEvent::EndDocument);
}

#[test]
fn peek_is_idempotent() {
    let mut root = root_from("<a>hi</a>");
    let child = root.child_buffer();
    let first = child.peek(&mut root).unwrap().clone();
    let second = child.peek(&mut root).unwrap().clone();
    assert_eq!(first, second);
    assert_eq!(first, start("a"));
}

#[test]
fn peek_agrees_with_next() {
    let mut root = root_from("<a>hi</a>");
    let mut child = root.child_buffer();
    let peeked = child.peek(&mut root).unwrap().clone();
    let consumed = child.next(&mut root).unwrap();
    assert_eq!(peeked, consumed);
    let peeked2 = child.peek(&mut root).unwrap().clone();
    let consumed2 = child.next(&mut root).unwrap();
    assert_eq!(peeked2, consumed2);
    assert_eq!(consumed2, XmlEvent::Characters("hi".to_string()));
}

#[test]
fn root_peek_agrees_with_root_next() {
    let mut root = root_from("<a><b/></a>");
    let peeked = root.peek().unwrap().clone();
    let consumed = root.next().unwrap();
    assert_eq!(peeked, consumed);
}

#[test]
fn child_consumption_leaves_sibling_views_alone() {
    let mut root = root_from("<a><b/></a>");
    // sibling view advanced past the first event without consuming it
    let mut sibling = root.child_buffer();
    let _ = sibling.peek(&mut root).unwrap();
    sibling.skip(&root);
    assert_eq!(sibling.peek(&mut root).unwrap().clone(), start("b"));
    // another child consumes the first event
    let mut eater = root.child_buffer();
    assert_eq!(eater.next(&mut root).unwrap(), start("a"));
    // the sibling's next unconsumed event is untouched
    assert_eq!(sibling.peek(&mut root).unwrap().clone(), start("b"));
}

#[test]
fn sequence_stops_at_first_other_sibling() {
    let mut root = root_from("<root><item>a</item><item>b</item><other/></root>");
    let mut state = DeserializerState::new();
    let mut child = root.child_buffer();
    assert_eq!(
        next_tracked(&mut child, &mut root, &mut state).unwrap(),
        start("root")
    );
    assert_eq!(state.depth, 1);
    state.set_map_value();
    let mut seq = SeqAccess::new(child, &mut root, &mut state, 1, None).unwrap();
    match &seq.seq_type {
        SeqType::SameElement { expected_name } => assert_eq!(expected_name, "item"),
        SeqType::AnyType => panic!("expected a same-name sequence"),
    }
    assert_eq!(
        seq.next_element(&mut root, &mut state).unwrap(),
        Some("a".to_string())
    );
    assert_eq!(
        seq.next_element(&mut root, &mut state).unwrap(),
        Some("b".to_string())
    );
    assert_eq!(seq.next_element(&mut root, &mut state).unwrap(), None);
    // the non-matching sibling is still there for the enclosing scope
    assert_eq!(root.peek().unwrap().clone(), start("other"));
}

#[test]
fn sequence_ends_at_parent_close() {
    let mut root = root_from("<root><item>a</item></root>");
    let mut state = DeserializerState::new();
    let mut child = root.child_buffer();
    next_tracked(&mut child, &mut root, &mut state).unwrap();
    state.set_map_value();
    let mut seq = SeqAccess::new(child, &mut root, &mut state, 1, None).unwrap();
    assert_eq!(
        seq.next_element(&mut root, &mut state).unwrap(),
        Some("a".to_string())
    );
    assert_eq!(seq.next_element(&mut root, &mut state).unwrap(), None);
    // the parent's closing tag was left unconsumed
    assert_eq!(root.peek().unwrap().clone(), end("root"));
}

#[test]
fn bounded_sequence_decodes_exactly_the_limit() {
    let mut root = root_from("<root><item>a</item><item>b</item><item>c</item></root>");
    let mut state = DeserializerState::new();
    let mut child = root.child_buffer();
    next_tracked(&mut child, &mut root, &mut state).unwrap();
    state.set_map_value();
    let mut seq = SeqAccess::new(child, &mut root, &mut state, 1, Some(2)).unwrap();
    assert_eq!(seq.size_hint(), Some(2));
    assert_eq!(
        seq.next_element(&mut root, &mut state).unwrap(),
        Some("a".to_string())
    );
    assert_eq!(
        seq.next_element(&mut root, &mut state).unwrap(),
        Some("b".to_string())
    );
    assert_eq!(seq.next_element(&mut root, &mut state).unwrap(), None);
    assert_eq!(seq.size_hint(), Some(0));
}

#[test]
fn sequence_depth_is_restored_after_nested_subtree() {
    let mut root = root_from("<root><item><nested>x</nested></item><item>y</item></root>");
    let mut state = DeserializerState::new();
    let mut child = root.child_buffer();
    next_tracked(&mut child, &mut root, &mut state).unwrap();
    state.set_map_value();
    let mut seq = SeqAccess::new(child, &mut root, &mut state, 1, None).unwrap();
    assert_eq!(
        seq.next_element(&mut root, &mut state).unwrap(),
        Some("x".to_string())
    );
    // the whole nested subtree was consumed and the depth recovered
    assert_eq!(state.depth, 1);
    assert_eq!(
        seq.next_element(&mut root, &mut state).unwrap(),
        Some("y".to_string())
    );
    assert_eq!(state.depth, 1);
    assert_eq!(seq.next_element(&mut root, &mut state).unwrap(), None);
}

#[test]
fn text_sequence_yields_each_run() {
    let mut root = root_from("<root>one<![CDATA[two]]></root>");
    let mut state = DeserializerState::new();
    let mut child = root.child_buffer();
    next_tracked(&mut child, &mut root, &mut state).unwrap();
    // no value position pending: a sequence of untagged values
    let mut seq = SeqAccess::new(child, &mut root, &mut state, 1, None).unwrap();
    match &seq.seq_type {
        SeqType::AnyType => {}
        SeqType::SameElement { .. } => panic!("expected an untagged sequence"),
    }
    assert_eq!(
        seq.next_element(&mut root, &mut state).unwrap(),
        Some("one".to_string())
    );
    assert_eq!(
        seq.next_element(&mut root, &mut state).unwrap(),
        Some("two".to_string())
    );
    assert_eq!(seq.next_element(&mut root, &mut state).unwrap(), None);
}

#[test]
fn text_sequence_refuses_elements() {
    let mut root = root_from("<root><x/></root>");
    let mut state = DeserializerState::new();
    let mut child = root.child_buffer();
    next_tracked(&mut child, &mut root, &mut state).unwrap();
    let mut seq = SeqAccess::new(child, &mut root, &mut state, 1, None).unwrap();
    assert_eq!(
        seq.next_element(&mut root, &mut state),
        Err(Error::Unsupported)
    );
}

#[test]
fn sequence_constructor_wants_a_start_tag_in_value_position() {
    let mut root = root_from("<root>text</root>");
    let mut state = DeserializerState::new();
    let mut child = root.child_buffer();
    next_tracked(&mut child, &mut root, &mut state).unwrap();
    state.set_map_value();
    match SeqAccess::new(child, &mut root, &mut state, 1, None) {
        Err(Error::UnexpectedToken) => {}
        _ => panic!("expected the value position to be refused"),
    }
}

#[test]
fn unit_variant_with_attribute_reports_the_count() {
    let mut root = root_from("<root><X flag=\"1\"/></root>");
    let mut state = DeserializerState::new();
    let mut child = root.child_buffer();
    next_tracked(&mut child, &mut root, &mut state).unwrap();
    let (name, mut variant) = EnumAccess::new(root.child_buffer())
        .read_discriminant(&mut root, &mut state)
        .unwrap();
    assert_eq!(name, "X");
    assert!(state.map_value);
    assert_eq!(
        variant.unit_variant(&mut root, &mut state),
        Err(Error::InvalidLength(1))
    );
}

#[test]
fn unit_variant_without_attributes_succeeds() {
    let mut root = root_from("<root><X/></root>");
    let mut state = DeserializerState::new();
    let mut child = root.child_buffer();
    next_tracked(&mut child, &mut root, &mut state).unwrap();
    let (name, mut variant) = EnumAccess::new(root.child_buffer())
        .read_discriminant(&mut root, &mut state)
        .unwrap();
    assert_eq!(name, "X");
    assert_eq!(variant.unit_variant(&mut root, &mut state), Ok(()));
    assert_eq!(state.depth, 1);
    assert!(!state.map_value);
    // both the start tag and its matching end tag were consumed
    assert_eq!(root.peek().unwrap().clone(), end("root"));
}

#[test]
fn unit_variant_from_bare_text() {
    let mut root = root_from("<root>Quiet</root>");
    let mut state = DeserializerState::new();
    let mut child = root.child_buffer();
    next_tracked(&mut child, &mut root, &mut state).unwrap();
    let (name, mut variant) = EnumAccess::new(root.child_buffer())
        .read_discriminant(&mut root, &mut state)
        .unwrap();
    assert_eq!(name, "Quiet");
    assert_eq!(variant.unit_variant(&mut root, &mut state), Ok(()));
}

#[test]
fn newtype_variant_decodes_the_payload() {
    let mut root = root_from("<root><Var>payload</Var></root>");
    let mut state = DeserializerState::new();
    let mut child = root.child_buffer();
    next_tracked(&mut child, &mut root, &mut state).unwrap();
    let (name, mut variant) = EnumAccess::new(root.child_buffer())
        .read_discriminant(&mut root, &mut state)
        .unwrap();
    assert_eq!(name, "Var");
    assert_eq!(
        variant.newtype_variant(&mut root, &mut state),
        Ok("payload".to_string())
    );
    assert_eq!(state.depth, 1);
}

#[test]
fn newtype_variant_gathers_nested_text() {
    let mut root = root_from("<root><V><in>a</in>b</V></root>");
    let mut state = DeserializerState::new();
    let mut child = root.child_buffer();
    next_tracked(&mut child, &mut root, &mut state).unwrap();
    let (name, mut variant) = EnumAccess::new(root.child_buffer())
        .read_discriminant(&mut root, &mut state)
        .unwrap();
    assert_eq!(name, "V");
    assert_eq!(
        variant.newtype_variant(&mut root, &mut state),
        Ok("ab".to_string())
    );
    assert_eq!(state.depth, 1);
}

#[test]
fn newtype_variant_of_empty_element_is_empty() {
    let mut root = root_from("<root><V/></root>");
    let mut state = DeserializerState::new();
    let mut child = root.child_buffer();
    next_tracked(&mut child, &mut root, &mut state).unwrap();
    let (_, mut variant) = EnumAccess::new(root.child_buffer())
        .read_discriminant(&mut root, &mut state)
        .unwrap();
    assert_eq!(
        variant.newtype_variant(&mut root, &mut state),
        Ok(String::new())
    );
}

#[test]
fn discriminant_position_refuses_an_end_tag() {
    let mut root = root_from("<root></root>");
    let mut state = DeserializerState::new();
    let mut child = root.child_buffer();
    next_tracked(&mut child, &mut root, &mut state).unwrap();
    match EnumAccess::new(root.child_buffer()).read_discriminant(&mut root, &mut state) {
        Err(Error::UnexpectedToken) => {}
        _ => panic!("expected the discriminant position to be refused"),
    }
}

#[test]
fn tokenizer_failure_is_reported_as_syntax() {
    let mut root = root_from("<a><b></a>");
    assert_eq!(root.next().unwrap(), start("a"));
    assert_eq!(root.next().unwrap(), start("b"));
    match root.next() {
        Err(Error::Syntax(_)) => {}
        other => panic!("expected a syntax error, got {:?}", other),
    }
}

#[test]
fn pathological_nesting_hits_the_depth_bound() {
    let doc = "<a>".repeat(1200);
    let mut root = root_from(&doc);
    let mut state = DeserializerState::new();
    let mut child = root.child_buffer();
    let mut depth_error = None;
    for _ in 0..1200 {
        match next_tracked(&mut child, &mut root, &mut state) {
            Ok(_) => {}
            Err(e) => {
                depth_error = Some(e);
                break;
            }
        }
    }
    assert_eq!(depth_error, Some(Error::DepthLimitExceeded));
}

#[test]
fn start_tags_carry_their_attributes() {
    let mut root = root_from("<a x=\"1\" y=\"two\"/>");
    match root.next().unwrap() {
        XmlEvent::StartElement { name, attributes } => {
            assert_eq!(name, "a");
            assert_eq!(attributes.len(), 2);
            assert_eq!(attributes[0].name, "x");
            assert_eq!(attributes[0].value, "1");
            assert_eq!(attributes[1].name, "y");
            assert_eq!(attributes[1].value, "two");
        }
        other => panic!("expected a start-tag, got {:?}", other),
    }
}

#[test]
fn end_of_document_repeats() {
    let mut root = root_from("<a/>");
    assert_eq!(root.next().unwrap(), start("a"));
    assert_eq!(root.next().unwrap(), end("a"));
    assert_eq!(root.next().unwrap(), XmlEvent::EndDocument);
    assert_eq!(root.next().unwrap(), XmlEvent::EndDocument);
}
