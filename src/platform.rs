//! The platform-description tree: nodes held in an arena and addressed by
//! index, each with typed attributes, and a table of named nodes.
use crate::model::Span;
use vstd::prelude::*;

verus! {

/// An attribute's value: an integer, a string, or a reference to a named
/// node.
#[derive(Clone, Debug, PartialEq, Eq)]
pub enum AttributeValue {
    UIntValue(u64),
    StrValue(Vec<u8>),
    RefValue(Vec<u8>),
}

/// The kind of value an attribute is expected to have.
#[derive(Clone, Copy, Debug, PartialEq, Eq, Structural)]
pub enum AttributeType {
    StringAttribute,
    IntAttribute,
    RefAttribute,
}

/// An attribute with the spans of its key and of its value.
#[derive(Clone, Debug)]
pub struct Attribute {
    pub value: AttributeValue,
    pub key_span: Span,
    pub value_span: Span,
}

impl Attribute {
    pub fn new(value: AttributeValue, key_span: Span, value_span: Span) -> (r: Attribute)
        ensures
            r.value == value,
            r.key_span == key_span,
            r.value_span == value_span,
    {
        Attribute { value, key_span, value_span }
    }
}

/// What a check of a node found wrong.
#[derive(Clone, Copy, Debug, PartialEq, Eq, Structural)]
pub enum TreeErrorKind {
    MissingStringAttribute,
    MissingIntAttribute,
    MissingRefAttribute,
    UnexpectedAttribute,
    UnexpectedSubnode,
}

/// A problem with a node, at `span`, about the attribute `key` (empty
/// when none is concerned).
#[derive(Clone, Debug)]
pub struct TreeError {
    pub kind: TreeErrorKind,
    pub span: Span,
    pub key: Vec<u8>,
}

/// A node: an optional name, a path, attributes keyed by name, and the
/// indices of its subnodes in the tree's arena.
#[derive(Clone, Debug)]
pub struct Node {
    pub name: Option<Vec<u8>>,
    pub name_span: Span,
    pub path: Vec<u8>,
    pub path_span: Span,
    pub attributes: Vec<(Vec<u8>, Attribute)>,
    pub subnodes: Vec<usize>,
}

/// Position `i` holds the first attribute with key `key`.
pub open spec fn key_at(attrs: Seq<(Vec<u8>, Attribute)>, key: Seq<u8>, i: int) -> bool {
    &&& 0 <= i < attrs.len()
    &&& attrs[i].0@ == key
    &&& forall|j: int| 0 <= j < i ==> attrs[j].0@ != key
}

/// The attribute with key `key`: the first one, if any.
pub open spec fn attr_of(attrs: Seq<(Vec<u8>, Attribute)>, key: Seq<u8>) -> Option<Attribute> {
    if exists|i: int| key_at(attrs, key, i) {
        Some(attrs[choose|i: int| key_at(attrs, key, i)].1)
    } else {
        None
    }
}

/// The attribute's integer value, if it has one.
pub open spec fn int_of(a: Option<Attribute>) -> Option<u64> {
    match a {
        Some(at) => match at.value {
            AttributeValue::UIntValue(u) => Some(u),
            _ => None,
        },
        None => None,
    }
}

/// The attribute's string value, if it has one.
pub open spec fn str_of(a: Option<Attribute>) -> Option<Seq<u8>> {
    match a {
        Some(at) => match at.value {
            AttributeValue::StrValue(s) => Some(s@),
            _ => None,
        },
        None => None,
    }
}

/// The attribute's reference value, if it has one.
pub open spec fn ref_of(a: Option<Attribute>) -> Option<Seq<u8>> {
    match a {
        Some(at) => match at.value {
            AttributeValue::RefValue(s) => Some(s@),
            _ => None,
        },
        None => None,
    }
}

/// Two byte strings are equal.
pub fn bytes_eq(a: &Vec<u8>, b: &[u8]) -> (r: bool)
    ensures
        r == (a@ == b@),
{
    if a.len() != b.len() {
        return false;
    }
    let mut i: usize = 0;
    while i < a.len()
        invariant
            0 <= i <= a@.len(),
            a@.len() == b@.len(),
            forall|k: int| 0 <= k < i ==> a@[k] == b@[k],
        decreases a@.len() - i,
    {
        if a[i] != b[i] {
            return false;
        }
        i = i + 1;
    }
    proof {
        assert(a@ =~= b@);
    }
    true
}

proof fn lemma_key_at_unique(attrs: Seq<(Vec<u8>, Attribute)>, key: Seq<u8>, i: int)
    requires
        key_at(attrs, key, i),
    ensures
        attr_of(attrs, key) == Some(attrs[i].1),
{
    let j = choose|j: int| key_at(attrs, key, j);
    if j < i {
    } else if j > i {
    }
}

proof fn lemma_attr_of_update(s: Seq<(Vec<u8>, Attribute)>, i: int, e: (Vec<u8>, Attribute), k2: Seq<u8>)
    requires
        0 <= i < s.len(),
        s[i].0@ == e.0@,
        k2 != e.0@,
    ensures
        attr_of(s.update(i, e), k2) == attr_of(s, k2),
{
    let t = s.update(i, e);
    assert forall|m: int| key_at(t, k2, m) <==> key_at(s, k2, m) by {
        if 0 <= m < s.len() {
            assert forall|j: int| 0 <= j <= m implies t[j].0@ == k2 <==> s[j].0@ == k2 by {
                if j == i {
                } else {
                    assert(t[j] == s[j]);
                }
            }
        }
    }
    if exists|m: int| key_at(s, k2, m) {
        let m = choose|m: int| key_at(s, k2, m);
        lemma_key_at_unique(s, k2, m);
        lemma_key_at_unique(t, k2, m);
    }
}

proof fn lemma_attr_of_push(s: Seq<(Vec<u8>, Attribute)>, e: (Vec<u8>, Attribute), k2: Seq<u8>)
    requires
        k2 != e.0@,
    ensures
        attr_of(s.push(e), k2) == attr_of(s, k2),
{
    let t = s.push(e);
    assert forall|m: int| key_at(t, k2, m) <==> key_at(s, k2, m) by {
        if 0 <= m < s.len() {
            assert forall|j: int| 0 <= j <= m implies t[j] == s[j] by {}
        }
    }
    if exists|m: int| key_at(s, k2, m) {
        let m = choose|m: int| key_at(s, k2, m);
        lemma_key_at_unique(s, k2, m);
        lemma_key_at_unique(t, k2, m);
    }
}

fn copy_bytes(s: &Vec<u8>) -> (r: Vec<u8>)
    ensures
        r@ == s@,
{
    let mut r: Vec<u8> = Vec::new();
    let mut i: usize = 0;
    while i < s.len()
        invariant
            0 <= i <= s@.len(),
            r@ == s@.subrange(0, i as int),
        decreases s@.len() - i,
    {
        r.push(s[i]);
        proof {
            assert(r@ =~= s@.subrange(0, i as int + 1));
        }
        i = i + 1;
    }
    proof {
        assert(s@.subrange(0, s@.len() as int) =~= s@);
    }
    r
}

fn tree_error(kind: TreeErrorKind, span: Span, key: &[u8]) -> (r: TreeError)
    ensures
        r.kind == kind,
        r.span == span,
        r.key@ == key@,
{
    let mut k: Vec<u8> = Vec::new();
    let mut i: usize = 0;
    while i < key.len()
        invariant
            0 <= i <= key@.len(),
            k@ == key@.subrange(0, i as int),
        decreases key@.len() - i,
    {
        k.push(key[i]);
        proof {
            assert(k@ =~= key@.subrange(0, i as int + 1));
        }
        i = i + 1;
    }
    proof {
        assert(key@.subrange(0, key@.len() as int) =~= key@);
    }
    TreeError { kind, span, key: k }
}

impl Node {
    /// A node without attributes or subnodes.
    pub fn new(name: Option<Vec<u8>>, name_span: Span, path: Vec<u8>, path_span: Span) -> (r: Node)
        ensures
            r.name == name,
            r.name_span == name_span,
            r.path == path,
            r.path_span == path_span,
            r.attributes@.len() == 0,
            r.subnodes@.len() == 0,
    {
        Node { name, name_span, path, path_span, attributes: Vec::new(), subnodes: Vec::new() }
    }

    /// Sets the attribute `key`, replacing the value it had.
    pub fn set_attr(&mut self, key: Vec<u8>, attr: Attribute)
        ensures
            attr_of(final(self).attributes@, key@) == Some(attr),
            forall|k: Seq<u8>| k != key@ ==> attr_of(final(self).attributes@, k) == attr_of(old(self).attributes@, k),
            final(self).subnodes == old(self).subnodes,
            final(self).name_span == old(self).name_span,
    {
        let ghost before = self.attributes@;
        let ghost k = key@;
        let mut i: usize = 0;
        while i < self.attributes.len()
            invariant
                0 <= i <= self.attributes@.len(),
                self.attributes@ == before,
                self.subnodes == old(self).subnodes,
                self.name_span == old(self).name_span,
                before == old(self).attributes@,
                k == key@,
                forall|j: int| 0 <= j < i ==> self.attributes@[j].0@ != key@,
            decreases self.attributes@.len() - i,
        {
            if bytes_eq(&self.attributes[i].0, key.as_slice()) {
                let entry = (key, attr);
                let ghost e = entry;
                self.attributes.set(i, entry);
                proof {
                    assert(self.attributes@ == before.update(i as int, e));
                    assert(key_at(self.attributes@, k, i as int));
                    lemma_key_at_unique(self.attributes@, k, i as int);
                    assert forall|k2: Seq<u8>| k2 != k implies attr_of(self.attributes@, k2) == attr_of(before, k2) by {
                        lemma_attr_of_update(before, i as int, e, k2);
                    }
                }
                return;
            }
            i = i + 1;
        }
        let entry = (key, attr);
        let ghost e = entry;
        self.attributes.push(entry);
        proof {
            let n = before.len() as int;
            assert(self.attributes@ == before.push(e));
            assert(key_at(self.attributes@, k, n));
            lemma_key_at_unique(self.attributes@, k, n);
            assert forall|k2: Seq<u8>| k2 != k implies attr_of(self.attributes@, k2) == attr_of(before, k2) by {
                lemma_attr_of_push(before, e, k2);
            }
        }
    }

    /// The attribute `key`.
    pub fn get_attr(&self, key: &[u8]) -> (r: Option<&Attribute>)
        ensures
            r matches Some(a) ==> attr_of(self.attributes@, key@) == Some(*a),
            r is None ==> attr_of(self.attributes@, key@) is None,
    {
        let mut i: usize = 0;
        while i < self.attributes.len()
            invariant
                0 <= i <= self.attributes@.len(),
                forall|j: int| 0 <= j < i ==> self.attributes@[j].0@ != key@,
            decreases self.attributes@.len() - i,
        {
            if bytes_eq(&self.attributes[i].0, key) {
                proof {
                    lemma_key_at_unique(self.attributes@, key@, i as int);
                }
                return Some(&self.attributes[i].1);
            }
            i = i + 1;
        }
        None
    }

    /// The string value of the attribute `key`, if it is a string.
    pub fn get_string_attr(&self, key: &[u8]) -> (r: Option<Vec<u8>>)
        ensures
            r matches Some(s) ==> str_of(attr_of(self.attributes@, key@)) == Some(s@),
            r is None ==> str_of(attr_of(self.attributes@, key@)) is None,
    {
        match self.get_attr(key) {
            Some(a) => match &a.value {
                AttributeValue::StrValue(s) => Some(copy_bytes(s)),
                _ => None,
            },
            None => None,
        }
    }

    /// The integer value of the attribute `key`, if it is an integer.
    pub fn get_int_attr(&self, key: &[u8]) -> (r: Option<u64>)
        ensures
            r == int_of(attr_of(self.attributes@, key@)),
    {
        match self.get_attr(key) {
            Some(a) => match &a.value {
                AttributeValue::UIntValue(u) => Some(*u),
                _ => None,
            },
            None => None,
        }
    }

    /// The reference value of the attribute `key`, if it is a reference.
    pub fn get_ref_attr(&self, key: &[u8]) -> (r: Option<Vec<u8>>)
        ensures
            r matches Some(s) ==> ref_of(attr_of(self.attributes@, key@)) == Some(s@),
            r is None ==> ref_of(attr_of(self.attributes@, key@)) is None,
    {
        match self.get_attr(key) {
            Some(a) => match &a.value {
                AttributeValue::RefValue(s) => Some(copy_bytes(s)),
                _ => None,
            },
            None => None,
        }
    }

    /// The string attribute `key`; when it is missing, an error at the
    /// node's name is reported.
    pub fn get_required_string_attr(&self, key: &[u8], errors: &mut Vec<TreeError>) -> (r: Option<Vec<u8>>)
        ensures
            r matches Some(s) ==> str_of(attr_of(self.attributes@, key@)) == Some(s@),
            r is None <==> str_of(attr_of(self.attributes@, key@)) is None,
            r is Some ==> final(errors)@ == old(errors)@,
            r is None ==> final(errors)@.len() == old(errors)@.len() + 1
                && final(errors)@.subrange(0, old(errors)@.len() as int) == old(errors)@
                && final(errors)@.last().kind == TreeErrorKind::MissingStringAttribute
                && final(errors)@.last().span == self.name_span
                && final(errors)@.last().key@ == key@,
    {
        let r = self.get_string_attr(key);
        if r.is_none() {
            errors.push(tree_error(TreeErrorKind::MissingStringAttribute, self.name_span, key));
            proof {
                assert(errors@.subrange(0, old(errors)@.len() as int) =~= old(errors)@);
            }
        }
        r
    }

    /// The integer attribute `key`; when it is missing, an error at the
    /// node's name is reported.
    pub fn get_required_int_attr(&self, key: &[u8], errors: &mut Vec<TreeError>) -> (r: Option<u64>)
        ensures
            r == int_of(attr_of(self.attributes@, key@)),
            r is Some ==> final(errors)@ == old(errors)@,
            r is None ==> final(errors)@.len() == old(errors)@.len() + 1
                && final(errors)@.subrange(0, old(errors)@.len() as int) == old(errors)@
                && final(errors)@.last().kind == TreeErrorKind::MissingIntAttribute
                && final(errors)@.last().span == self.name_span
                && final(errors)@.last().key@ == key@,
    {
        let r = self.get_int_attr(key);
        if r.is_none() {
            errors.push(tree_error(TreeErrorKind::MissingIntAttribute, self.name_span, key));
            proof {
                assert(errors@.subrange(0, old(errors)@.len() as int) =~= old(errors)@);
            }
        }
        r
    }

    /// The reference attribute `key`; when it is missing, an error at the
    /// node's name is reported.
    pub fn get_required_ref_attr(&self, key: &[u8], errors: &mut Vec<TreeError>) -> (r: Option<Vec<u8>>)
        ensures
            r matches Some(s) ==> ref_of(attr_of(self.attributes@, key@)) == Some(s@),
            r is None <==> ref_of(attr_of(self.attributes@, key@)) is None,
            r is Some ==> final(errors)@ == old(errors)@,
            r is None ==> final(errors)@.len() == old(errors)@.len() + 1
                && final(errors)@.subrange(0, old(errors)@.len() as int) == old(errors)@
                && final(errors)@.last().kind == TreeErrorKind::MissingRefAttribute
                && final(errors)@.last().span == self.name_span
                && final(errors)@.last().key@ == key@,
    {
        let r = self.get_ref_attr(key);
        if r.is_none() {
            errors.push(tree_error(TreeErrorKind::MissingRefAttribute, self.name_span, key));
            proof {
                assert(errors@.subrange(0, old(errors)@.len() as int) =~= old(errors)@);
            }
        }
        r
    }

    /// Reports each attribute, at its key, as unexpected; true when the
    /// node has none.
    pub fn expect_no_attributes(&self, errors: &mut Vec<TreeError>) -> (r: bool)
        ensures
            r == (self.attributes@.len() == 0),
            final(errors)@.len() == old(errors)@.len() + self.attributes@.len(),
            final(errors)@.subrange(0, old(errors)@.len() as int) == old(errors)@,
            forall|i: int| 0 <= i < self.attributes@.len() ==> (#[trigger] final(errors)@[old(errors)@.len() + i]).kind
                == TreeErrorKind::UnexpectedAttribute && final(errors)@[old(errors)@.len() + i].span
                == self.attributes@[i].1.key_span,
    {
        let mut ok = true;
        let mut i: usize = 0;
        while i < self.attributes.len()
            invariant
                0 <= i <= self.attributes@.len(),
                ok == (i == 0),
                errors@.len() == old(errors)@.len() + i,
                errors@.subrange(0, old(errors)@.len() as int) == old(errors)@,
                forall|k: int| 0 <= k < i ==> (#[trigger] errors@[old(errors)@.len() + k]).kind
                    == TreeErrorKind::UnexpectedAttribute && errors@[old(errors)@.len() + k].span
                    == self.attributes@[k].1.key_span,
            decreases self.attributes@.len() - i,
        {
            ok = false;
            let ghost before = errors@;
            errors.push(tree_error(TreeErrorKind::UnexpectedAttribute, self.attributes[i].1.key_span, self.attributes[i].0.as_slice()));
            proof {
                assert(errors@.subrange(0, old(errors)@.len() as int) =~= before.subrange(0, old(errors)@.len() as int));
                assert forall|k: int| 0 <= k < i + 1 implies (#[trigger] errors@[old(errors)@.len() + k]).kind
                    == TreeErrorKind::UnexpectedAttribute && errors@[old(errors)@.len() + k].span
                    == self.attributes@[k].1.key_span by {
                    if k < i {
                        assert(errors@[old(errors)@.len() + k] == before[old(errors)@.len() + k]);
                    }
                }
            }
            i = i + 1;
        }
        ok
    }

    /// Reports each subnode, at its name, as unexpected; true when the
    /// node has none.
    pub fn expect_no_subnodes(&self, tree: &PlatformTree, errors: &mut Vec<TreeError>) -> (r: bool)
        requires
            forall|i: int| 0 <= i < self.subnodes@.len() ==> #[trigger] self.subnodes@[i] < tree.spec_nodes().len(),
        ensures
            r == (self.subnodes@.len() == 0),
            final(errors)@.len() == old(errors)@.len() + self.subnodes@.len(),
            final(errors)@.subrange(0, old(errors)@.len() as int) == old(errors)@,
            forall|i: int| 0 <= i < self.subnodes@.len() ==> (#[trigger] final(errors)@[old(errors)@.len() + i]).kind
                == TreeErrorKind::UnexpectedSubnode && final(errors)@[old(errors)@.len() + i].span
                == tree.spec_nodes()[self.subnodes@[i] as int].name_span,
    {
        let mut ok = true;
        let mut i: usize = 0;
        while i < self.subnodes.len()
            invariant
                0 <= i <= self.subnodes@.len(),
                forall|j: int| 0 <= j < self.subnodes@.len() ==> #[trigger] self.subnodes@[j] < tree.spec_nodes().len(),
                ok == (i == 0),
                errors@.len() == old(errors)@.len() + i,
                errors@.subrange(0, old(errors)@.len() as int) == old(errors)@,
                forall|k: int| 0 <= k < i ==> (#[trigger] errors@[old(errors)@.len() + k]).kind
                    == TreeErrorKind::UnexpectedSubnode && errors@[old(errors)@.len() + k].span
                    == tree.spec_nodes()[self.subnodes@[k] as int].name_span,
            decreases self.subnodes@.len() - i,
        {
            ok = false;
            let sub = tree.get(self.subnodes[i]);
            let ghost before = errors@;
            let empty: Vec<u8> = Vec::new();
            errors.push(tree_error(TreeErrorKind::UnexpectedSubnode, sub.name_span, empty.as_slice()));
            proof {
                assert(errors@.subrange(0, old(errors)@.len() as int) =~= before.subrange(0, old(errors)@.len() as int));
                assert forall|k: int| 0 <= k < i + 1 implies (#[trigger] errors@[old(errors)@.len() + k]).kind
                    == TreeErrorKind::UnexpectedSubnode && errors@[old(errors)@.len() + k].span
                    == tree.spec_nodes()[self.subnodes@[k] as int].name_span by {
                    if k < i {
                        assert(errors@[old(errors)@.len() + k] == before[old(errors)@.len() + k]);
                    }
                }
            }
            i = i + 1;
        }
        ok
    }

    /// Checks that each expected attribute is there with its type,
    /// reporting, in order and without stopping, one error per expectation
    /// that fails (its kind, its key, at the node's name); true when none
    /// fails.
    pub fn expect_attributes(&self, expectations: &Vec<(Vec<u8>, AttributeType)>, errors: &mut Vec<TreeError>) -> (r: bool)
        ensures
            r == forall|i: int| 0 <= i < expectations@.len() ==> has_typed(self.attributes@, #[trigger] expectations@[i].0@, expectations@[i].1),
            final(errors)@.len() == old(errors)@.len() + failures(self.attributes@, expectations@).len(),
            final(errors)@.subrange(0, old(errors)@.len() as int) == old(errors)@,
            forall|k: int| 0 <= k < failures(self.attributes@, expectations@).len() ==> {
                let e = #[trigger] final(errors)@[old(errors)@.len() + k];
                e.kind == failures(self.attributes@, expectations@)[k].0 && e.key@ == failures(self.attributes@, expectations@)[k].1
                    && e.span == self.name_span
            },
            r <==> final(errors)@.len() == old(errors)@.len(),
    {
        let start = errors.len();
        let mut i: usize = 0;
        proof {
            assert(errors@.subrange(0, errors@.len() as int) =~= errors@);
            assert(expectations@.subrange(0, 0) =~= Seq::<(Vec<u8>, AttributeType)>::empty());
        }
        while i < expectations.len()
            invariant
                0 <= i <= expectations@.len(),
                start == old(errors)@.len(),
                errors@.len() == old(errors)@.len() + failures(self.attributes@, expectations@.subrange(0, i as int)).len(),
                errors@.subrange(0, old(errors)@.len() as int) == old(errors)@,
                forall|k: int| 0 <= k < failures(self.attributes@, expectations@.subrange(0, i as int)).len() ==> {
                    let e = #[trigger] errors@[old(errors)@.len() + k];
                    e.kind == failures(self.attributes@, expectations@.subrange(0, i as int))[k].0
                        && e.key@ == failures(self.attributes@, expectations@.subrange(0, i as int))[k].1
                        && e.span == self.name_span
                },
                (forall|k: int| 0 <= k < i ==> has_typed(self.attributes@, #[trigger] expectations@[k].0@, expectations@[k].1))
                    <==> failures(self.attributes@, expectations@.subrange(0, i as int)).len() == 0,
            decreases expectations@.len() - i,
        {
            let key = expectations[i].0.as_slice();
            let ghost before = errors@;
            let ghost prev = failures(self.attributes@, expectations@.subrange(0, i as int));
            let found = match expectations[i].1 {
                AttributeType::StringAttribute => self.get_required_string_attr(key, errors).is_some(),
                AttributeType::IntAttribute => self.get_required_int_attr(key, errors).is_some(),
                AttributeType::RefAttribute => self.get_required_ref_attr(key, errors).is_some(),
            };
            proof {
                let sub = expectations@.subrange(0, i as int + 1);
                assert(sub.drop_last() =~= expectations@.subrange(0, i as int));
                assert(sub.last() == expectations@[i as int]);
                let cur = failures(self.attributes@, sub);
                assert(found == has_typed(self.attributes@, expectations@[i as int].0@, expectations@[i as int].1));
                if found {
                    assert(cur =~= prev);
                } else {
                    assert(cur =~= prev.push((missing_kind(expectations@[i as int].1), expectations@[i as int].0@)));
                    assert(errors@.subrange(0, before.len() as int) == before);
                    assert(errors@.subrange(0, old(errors)@.len() as int) =~= errors@.subrange(0, before.len() as int).subrange(0, old(errors)@.len() as int));
                    assert forall|k: int| 0 <= k < cur.len() implies {
                        let e = #[trigger] errors@[old(errors)@.len() + k];
                        e.kind == cur[k].0 && e.key@ == cur[k].1 && e.span == self.name_span
                    } by {
                        if k < prev.len() {
                            assert(errors@[old(errors)@.len() + k] == errors@.subrange(0, before.len() as int)[old(errors)@.len() + k]);
                            assert(before[old(errors)@.len() + k] == errors@[old(errors)@.len() + k]);
                        }
                    }
                    assert(!(forall|k: int| 0 <= k < i + 1 ==> has_typed(self.attributes@, #[trigger] expectations@[k].0@, expectations@[k].1)));
                }
            }
            i = i + 1;
        }
        proof {
            assert(expectations@.subrange(0, expectations@.len() as int) =~= expectations@);
        }
        errors.len() == start
    }

    /// The first subnode whose path is `path`, by its index in the tree.
    pub fn get_by_path(&self, tree: &PlatformTree, path: &[u8]) -> (r: Option<usize>)
        requires
            forall|i: int| 0 <= i < self.subnodes@.len() ==> #[trigger] self.subnodes@[i] < tree.spec_nodes().len(),
        ensures
            r matches Some(n) ==> exists|j: int| 0 <= j < self.subnodes@.len() && self.subnodes@[j] == n
                && tree.spec_nodes()[n as int].path@ == path@
                && forall|k: int| 0 <= k < j ==> tree.spec_nodes()[#[trigger] self.subnodes@[k] as int].path@ != path@,
            r is None ==> forall|j: int| 0 <= j < self.subnodes@.len() ==> tree.spec_nodes()[#[trigger] self.subnodes@[j] as int].path@ != path@,
    {
        let mut i: usize = 0;
        while i < self.subnodes.len()
            invariant
                0 <= i <= self.subnodes@.len(),
                forall|j: int| 0 <= j < self.subnodes@.len() ==> #[trigger] self.subnodes@[j] < tree.spec_nodes().len(),
                forall|k: int| 0 <= k < i ==> tree.spec_nodes()[#[trigger] self.subnodes@[k] as int].path@ != path@,
            decreases self.subnodes@.len() - i,
        {
            let n = self.subnodes[i];
            if bytes_eq(&tree.get(n).path, path) {
                return Some(n);
            }
            i = i + 1;
        }
        None
    }
}

/// The node has the attribute `key` with a value of type `t`.
pub open spec fn has_typed(attrs: Seq<(Vec<u8>, Attribute)>, key: Seq<u8>, t: AttributeType) -> bool {
    match t {
        AttributeType::StringAttribute => str_of(attr_of(attrs, key)) is Some,
        AttributeType::IntAttribute => int_of(attr_of(attrs, key)) is Some,
        AttributeType::RefAttribute => ref_of(attr_of(attrs, key)) is Some,
    }
}

/// The error for a missing attribute of type `t`.
pub open spec fn missing_kind(t: AttributeType) -> TreeErrorKind {
    match t {
        AttributeType::StringAttribute => TreeErrorKind::MissingStringAttribute,
        AttributeType::IntAttribute => TreeErrorKind::MissingIntAttribute,
        AttributeType::RefAttribute => TreeErrorKind::MissingRefAttribute,
    }
}

/// The expectations that fail, in order: the error kind and the key of each.
pub open spec fn failures(attrs: Seq<(Vec<u8>, Attribute)>, exps: Seq<(Vec<u8>, AttributeType)>) -> Seq<(TreeErrorKind, Seq<u8>)>
    decreases exps.len(),
{
    if exps.len() == 0 {
        seq![]
    } else {
        failures(attrs, exps.drop_last()) + if has_typed(attrs, exps.last().0@, exps.last().1) {
            seq![]
        } else {
            seq![(missing_kind(exps.last().1), exps.last().0@)]
        }
    }
}

/// All nodes, in an arena addressed by index, and the named ones by name.
#[derive(Clone, Debug)]
pub struct PlatformTree {
    nodes: Vec<Node>,
    named: Vec<(Vec<u8>, usize)>,
}

impl PlatformTree {
    pub closed spec fn spec_nodes(&self) -> Seq<Node> {
        self.nodes@
    }

    pub closed spec fn spec_named(&self) -> Seq<(Vec<u8>, usize)> {
        self.named@
    }

    pub fn new(nodes: Vec<Node>, named: Vec<(Vec<u8>, usize)>) -> (r: PlatformTree)
        ensures
            r.spec_nodes() == nodes@,
            r.spec_named() == named@,
    {
        PlatformTree { nodes, named }
    }

    /// The index of the first node named `name`.
    pub fn get_by_name(&self, name: &[u8]) -> (r: Option<usize>)
        ensures
            r matches Some(n) ==> exists|j: int| 0 <= j < self.spec_named().len() && self.spec_named()[j].0@ == name@
                && self.spec_named()[j].1 == n && forall|k: int| 0 <= k < j ==> (#[trigger] self.spec_named()[k]).0@ != name@,
            r is None ==> forall|j: int| 0 <= j < self.spec_named().len() ==> (#[trigger] self.spec_named()[j]).0@ != name@,
    {
        let mut i: usize = 0;
        while i < self.named.len()
            invariant
                0 <= i <= self.named@.len(),
                forall|k: int| 0 <= k < i ==> (#[trigger] self.named@[k]).0@ != name@,
            decreases self.named@.len() - i,
        {
            if bytes_eq(&self.named[i].0, name) {
                proof {
                    let j = i as int;
                    assert(0 <= j < self.spec_named().len() && self.spec_named()[j].0@ == name@
                        && forall|k: int| 0 <= k < j ==> (#[trigger] self.spec_named()[k]).0@ != name@);
                }
                return Some(self.named[i].1);
            }
            i = i + 1;
        }
        None
    }

    /// The node at index `idx`.
    pub fn get(&self, idx: usize) -> (r: &Node)
        requires
            idx < self.spec_nodes().len(),
        ensures
            *r == self.spec_nodes()[idx as int],
    {
        &self.nodes[idx]
    }

    /// All nodes, in order.
    pub fn iter(&self) -> (r: &Vec<Node>)
        ensures
            r@ == self.spec_nodes(),
    {
        &self.nodes
    }
}

} // verus!
