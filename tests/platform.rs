use ioreg::model::Span;
use ioreg::platform::{Attribute, AttributeType, AttributeValue, Node, PlatformTree, TreeErrorKind};

fn sp(lo: usize) -> Span {
    Span { lo, hi: lo + 1 }
}

fn node() -> Node {
    let mut n = Node::new(Some(b"uart".to_vec()), sp(1), b"uart@0".to_vec(), sp(2));
    n.set_attr(b"speed".to_vec(), Attribute::new(AttributeValue::UIntValue(115200), sp(3), sp(4)));
    n.set_attr(b"pin".to_vec(), Attribute::new(AttributeValue::RefValue(b"tx".to_vec()), sp(5), sp(6)));
    n.set_attr(b"mode".to_vec(), Attribute::new(AttributeValue::StrValue(b"fast".to_vec()), sp(7), sp(8)));
    n
}

#[test]
fn typed_attribute_lookup() {
    let n = node();
    assert_eq!(n.get_int_attr(b"speed"), Some(115200));
    assert_eq!(n.get_string_attr(b"speed"), None);
    assert_eq!(n.get_ref_attr(b"pin"), Some(b"tx".to_vec()));
    assert_eq!(n.get_string_attr(b"mode"), Some(b"fast".to_vec()));
    assert!(n.get_attr(b"none").is_none());
    assert_eq!(n.get_attr(b"pin").unwrap().key_span, sp(5));
}

#[test]
fn setting_an_attribute_again_replaces_it() {
    let mut n = node();
    n.set_attr(b"speed".to_vec(), Attribute::new(AttributeValue::UIntValue(9600), sp(9), sp(10)));
    assert_eq!(n.get_int_attr(b"speed"), Some(9600));
    assert_eq!(n.attributes.len(), 3);
}

#[test]
fn required_attributes_report_what_is_missing() {
    let n = node();
    let mut errors = Vec::new();
    assert_eq!(n.get_required_int_attr(b"speed", &mut errors), Some(115200));
    assert!(errors.is_empty());
    assert_eq!(n.get_required_string_attr(b"pin", &mut errors), None);
    assert_eq!(n.get_required_ref_attr(b"clock", &mut errors), None);
    assert_eq!(errors.len(), 2);
    assert_eq!(errors[0].kind, TreeErrorKind::MissingStringAttribute);
    assert_eq!(errors[0].span, sp(1));
    assert_eq!(errors[1].key, b"clock".to_vec());
    assert_eq!(errors[1].kind, TreeErrorKind::MissingRefAttribute);
    assert_eq!(n.get_required_int_attr(b"mode", &mut errors), None);
    assert_eq!(errors[2].kind, TreeErrorKind::MissingIntAttribute);
    assert_eq!(errors[2].key, b"mode".to_vec());
}

#[test]
fn expected_attributes() {
    let n = node();
    let mut errors = Vec::new();
    let ok = n.expect_attributes(&vec![(b"speed".to_vec(), AttributeType::IntAttribute), (b"pin".to_vec(), AttributeType::RefAttribute)], &mut errors);
    assert!(ok);
    assert!(errors.is_empty());
    let bad = n.expect_attributes(&vec![(b"speed".to_vec(), AttributeType::StringAttribute), (b"x".to_vec(), AttributeType::IntAttribute)], &mut errors);
    assert!(!bad);
    assert_eq!(errors.len(), 2);
    assert!(!n.expect_no_attributes(&mut errors));
    assert_eq!(errors.len(), 5);
    assert_eq!(errors[2].kind, TreeErrorKind::UnexpectedAttribute);
    assert_eq!(errors[2].span, sp(3));
}

#[test]
fn tree_lookups() {
    let mut root = Node::new(None, sp(0), b"/".to_vec(), sp(0));
    root.subnodes = vec![1, 2];
    let a = Node::new(Some(b"a".to_vec()), sp(10), b"gpio@1".to_vec(), sp(11));
    let b = Node::new(None, sp(20), b"uart@0".to_vec(), sp(21));
    let tree = PlatformTree::new(vec![root, a, b], vec![(b"a".to_vec(), 1)]);
    let root = tree.get(0);
    assert_eq!(root.get_by_path(&tree, b"uart@0"), Some(2));
    assert_eq!(root.get_by_path(&tree, b"spi@0"), None);
    assert_eq!(tree.get_by_name(b"a"), Some(1));
    assert_eq!(tree.get_by_name(b"b"), None);
    assert_eq!(tree.iter().len(), 3);
    let mut errors = Vec::new();
    assert!(!root.expect_no_subnodes(&tree, &mut errors));
    assert_eq!(errors.len(), 2);
    assert_eq!(errors[1].span, sp(20));
    assert_eq!(errors[0].kind, TreeErrorKind::UnexpectedSubnode);
    assert!(tree.get(1).expect_no_subnodes(&tree, &mut errors));
    assert!(tree.get(1).expect_no_attributes(&mut errors));
}
