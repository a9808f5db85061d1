//! A parsed markup tree and pre-order searches over it.
use std::rc::Rc;
use vstd::prelude::*;
use html5ever::driver::ParseOpts;
use html5ever::tendril::TendrilSink;
use html5ever::tree_builder::TreeBuilderOpts;
use markup5ever_rcdom::{NodeData, RcDom};

verus! {

/// One `name="value"` attribute of an element.
pub struct DomAttr {
    pub name: String,
    pub value: String,
}

/// A node of a markup tree. Children are kept in document order.
pub enum DomNode {
    Element { name: String, attrs: Vec<DomAttr>, children: Vec<DomNode> },
    Text { contents: String },
    /// The document root, a doctype, a comment or a processing instruction.
    Other { children: Vec<DomNode> },
}

/// What a search looks for.
pub enum NodeQuery {
    /// An element with this local name.
    Name(String),
    /// An element carrying an attribute with this key and value.
    Attr(String, String),
    /// An element with exactly one text child, which reads exactly this.
    ChildText(String),
    /// A text node reading exactly this.
    Text(String),
}

/// What a search looks for, as a value of the specification.
pub enum QuerySpec {
    Name(Seq<char>),
    Attr(Seq<char>, Seq<char>),
    ChildText(Seq<char>),
    Text(Seq<char>),
}

impl View for NodeQuery {
    type V = QuerySpec;

    open spec fn view(&self) -> QuerySpec {
        match self {
            NodeQuery::Name(s) => QuerySpec::Name(s@),
            NodeQuery::Attr(k, v) => QuerySpec::Attr(k@, v@),
            NodeQuery::ChildText(s) => QuerySpec::ChildText(s@),
            NodeQuery::Text(s) => QuerySpec::Text(s@),
        }
    }
}

pub open spec fn children_of(n: DomNode) -> Seq<DomNode> {
    match n {
        DomNode::Element { children, .. } => children@,
        DomNode::Text { .. } => Seq::empty(),
        DomNode::Other { children } => children@,
    }
}

pub open spec fn has_attr(attrs: Seq<DomAttr>, key: Seq<char>, value: Seq<char>) -> bool {
    exists|i: int| 0 <= i < attrs.len() && (#[trigger] attrs[i]).name@ == key && attrs[i].value@ == value
}

/// The contents of the text nodes among `children`, in order.
pub open spec fn text_children(children: Seq<DomNode>) -> Seq<Seq<char>>
    decreases children.len(),
{
    if children.len() == 0 {
        Seq::empty()
    } else {
        match children.last() {
            DomNode::Text { contents } => text_children(children.drop_last()).push(contents@),
            _ => text_children(children.drop_last()),
        }
    }
}

pub open spec fn query_matches(q: QuerySpec, n: DomNode) -> bool {
    match q {
        QuerySpec::Name(s) => match n {
            DomNode::Element { name, .. } => name@ == s,
            _ => false,
        },
        QuerySpec::Attr(k, v) => match n {
            DomNode::Element { attrs, .. } => has_attr(attrs@, k, v),
            _ => false,
        },
        QuerySpec::ChildText(s) => match n {
            DomNode::Element { children, .. } => text_children(children@) == seq![s],
            _ => false,
        },
        QuerySpec::Text(s) => match n {
            DomNode::Text { contents } => contents@ == s,
            _ => false,
        },
    }
}

/// The first node of the tree under `n` (itself included) that `q` matches, in pre-order.
pub open spec fn find_first(q: QuerySpec, n: DomNode) -> Option<DomNode>
    decreases n,
{
    if query_matches(q, n) {
        Some(n)
    } else {
        match n {
            DomNode::Element { children, .. } => find_first_in(q, children@),
            DomNode::Text { .. } => None,
            DomNode::Other { children } => find_first_in(q, children@),
        }
    }
}

/// The first match in the trees of `s`, taken in order.
pub open spec fn find_first_in(q: QuerySpec, s: Seq<DomNode>) -> Option<DomNode>
    decreases s,
{
    if s.len() == 0 {
        None
    } else {
        match find_first(q, s[0]) {
            Some(m) => Some(m),
            None => find_first_in(q, s.drop_first()),
        }
    }
}

proof fn lemma_find_first_in_step(q: QuerySpec, s: Seq<DomNode>, i: int)
    requires
        0 <= i < s.len(),
        find_first(q, s[i]) is None,
    ensures
        find_first_in(q, s.subrange(i, s.len() as int)) == find_first_in(q, s.subrange(i + 1, s.len() as int)),
{
    let t = s.subrange(i, s.len() as int);
    assert(t[0] == s[i]);
    assert(t.drop_first() =~= s.subrange(i + 1, s.len() as int));
}

proof fn lemma_find_first_in_hit(q: QuerySpec, s: Seq<DomNode>, i: int)
    requires
        0 <= i < s.len(),
        find_first(q, s[i]) is Some,
    ensures
        find_first_in(q, s.subrange(i, s.len() as int)) == find_first(q, s[i]),
{
    let t = s.subrange(i, s.len() as int);
    assert(t[0] == s[i]);
}

fn attrs_contain(attrs: &Vec<DomAttr>, key: &String, value: &String) -> (r: bool)
    ensures
        r == has_attr(attrs@, key@, value@),
{
    let mut i: usize = 0;
    while i < attrs.len()
        invariant
            i <= attrs.len(),
            forall|j: int| 0 <= j < i ==> !((#[trigger] attrs@[j]).name@ == key@ && attrs@[j].value@ == value@),
        decreases attrs.len() - i,
    {
        if attrs[i].name == *key && attrs[i].value == *value {
            return true;
        }
        i = i + 1;
    }
    false
}

/// The contents of the single text child among `children`, if there is exactly one.
fn only_text_of(children: &Vec<DomNode>) -> (r: Option<&String>)
    ensures
        match r {
            Some(t) => text_children(children@) == seq![t@],
            None => text_children(children@).len() != 1,
        },
{
    let mut found: Option<&String> = None;
    let mut count: usize = 0;
    let mut i: usize = 0;
    assert(children@.subrange(0, 0) =~= Seq::<DomNode>::empty());
    while i < children.len()
        invariant
            i <= children.len(),
            count <= i,
            count == text_children(children@.subrange(0, i as int)).len(),
            count == 0 ==> found is None,
            count >= 1 ==> (found matches Some(t) && t@ == text_children(children@.subrange(0, i as int))[0]),
        decreases children.len() - i,
    {
        let ghost prev = text_children(children@.subrange(0, i as int));
        let ghost t = children@.subrange(0, i + 1);
        assert(t.drop_last() =~= children@.subrange(0, i as int));
        assert(t.last() == children@[i as int]);
        match &children[i] {
            DomNode::Text { contents } => {
                assert(text_children(t) == prev.push(contents@));
                if count == 0 {
                    found = Some(contents);
                }
                count = count + 1;
            },
            _ => {},
        }
        i = i + 1;
    }
    assert(children@.subrange(0, children@.len() as int) =~= children@);
    if count == 1 {
        proof {
            let tc = text_children(children@);
            assert(tc =~= seq![found->0@]);
        }
        found
    } else {
        None
    }
}

/// Whether `q` matches `n` itself.
pub fn node_matches(q: &NodeQuery, n: &DomNode) -> (r: bool)
    ensures
        r == query_matches(q@, *n),
{
    match q {
        NodeQuery::Name(s) => match n {
            DomNode::Element { name, .. } => *name == *s,
            _ => false,
        },
        NodeQuery::Attr(k, v) => match n {
            DomNode::Element { attrs, .. } => attrs_contain(attrs, k, v),
            _ => false,
        },
        NodeQuery::ChildText(s) => match n {
            DomNode::Element { children, .. } => match only_text_of(children) {
                Some(t) => {
                    proof {
                        if t@ != s@ {
                            assert(seq![t@][0] != seq![s@][0]);
                        }
                    }
                    *t == *s
                },
                None => {
                    assert(seq![s@].len() == 1);
                    false
                },
            },
            _ => false,
        },
        NodeQuery::Text(s) => match n {
            DomNode::Text { contents } => *contents == *s,
            _ => false,
        },
    }
}

/// The first node under `node` (itself included) that `q` matches, in pre-order.
/// The tree is only read.
pub fn walk<'a>(node: &'a DomNode, q: &NodeQuery) -> (r: Option<&'a DomNode>)
    ensures
        match r {
            Some(m) => find_first(q@, *node) == Some(*m),
            None => find_first(q@, *node) is None,
        },
    decreases node,
{
    if node_matches(q, node) {
        return Some(node);
    }
    let children = match node {
        DomNode::Element { children, .. } => children,
        DomNode::Text { .. } => {
            return None;
        },
        DomNode::Other { children } => children,
    };
    let mut i: usize = 0;
    assert(children@.subrange(0, children@.len() as int) =~= children@);
    while i < children.len()
        invariant
            i <= children.len(),
            find_first(q@, *node) == find_first_in(q@, children@.subrange(i as int, children@.len() as int)),
            children_of(*node) == children@,
        decreases children.len() - i,
    {
        proof {
            assert(decreases_to!(*node => children@[i as int]));
        }
        match walk(&children[i], q) {
            Some(m) => {
                proof {
                    lemma_find_first_in_hit(q@, children@, i as int);
                }
                return Some(m);
            },
            None => {
                proof {
                    lemma_find_first_in_step(q@, children@, i as int);
                }
            },
        }
        i = i + 1;
    }
    None
}

/// The first element named `name`, in pre-order.
pub fn get_by_name<'a>(node: &'a DomNode, name: &str) -> (r: Option<&'a DomNode>)
    ensures
        match r {
            Some(m) => find_first(QuerySpec::Name(name@), *node) == Some(*m),
            None => find_first(QuerySpec::Name(name@), *node) is None,
        },
{
    walk(node, &NodeQuery::Name(name.to_owned()))
}

/// The first element with attribute `key="value"`, in pre-order.
pub fn get_by_attr<'a>(node: &'a DomNode, key: &str, value: &str) -> (r: Option<&'a DomNode>)
    ensures
        match r {
            Some(m) => find_first(QuerySpec::Attr(key@, value@), *node) == Some(*m),
            None => find_first(QuerySpec::Attr(key@, value@), *node) is None,
        },
{
    walk(node, &NodeQuery::Attr(key.to_owned(), value.to_owned()))
}

/// The first element whose single text child reads exactly `text`, in pre-order.
pub fn get_by_child_text<'a>(node: &'a DomNode, text: &str) -> (r: Option<&'a DomNode>)
    ensures
        match r {
            Some(m) => find_first(QuerySpec::ChildText(text@), *node) == Some(*m),
            None => find_first(QuerySpec::ChildText(text@), *node) is None,
        },
{
    walk(node, &NodeQuery::ChildText(text.to_owned()))
}

/// The first text node reading exactly `text`, in pre-order.
pub fn get_by_text<'a>(node: &'a DomNode, text: &str) -> (r: Option<&'a DomNode>)
    ensures
        match r {
            Some(m) => find_first(QuerySpec::Text(text@), *node) == Some(*m),
            None => find_first(QuerySpec::Text(text@), *node) is None,
        },
{
    walk(node, &NodeQuery::Text(text.to_owned()))
}

#[verifier::external_type_specification]
#[verifier::external_body]
pub struct ExRcdomNode(markup5ever_rcdom::Node);

/// The most characters of markup that one page may hold.
pub const MAX_MARKUP_CHARS: usize = 0x3fff_ffff;

/// The tree that html5ever builds for a document, doctype dropped.
pub uninterp spec fn parsed_html(html: Seq<char>) -> DomNode;

/// Copies an rcdom node and its descendants into a `DomNode`, keeping local
/// names of elements and attributes and the order of children.
#[verifier::external_body]
fn dom_from_handle(h: &Rc<markup5ever_rcdom::Node>) -> DomNode {
    let children = h.children.borrow().iter().map(|c| dom_from_handle(c)).collect();
    match h.data {
        NodeData::Element { ref name, ref attrs, .. } => DomNode::Element {
            name: name.local.to_string(),
            attrs: attrs.borrow().iter().map(|a| DomAttr { name: a.name.local.to_string(), value: a.value.to_string() }).collect(),
            children,
        },
        NodeData::Text { ref contents } => DomNode::Text { contents: contents.borrow().to_string() },
        _ => DomNode::Other { children },
    }
}

/// Relies on html5ever::parse_document (into markup5ever_rcdom::RcDom, doctype
/// dropped): its tree depends on the text alone. The text goes in as one
/// tendril, whose length tendril caps at `u32::MAX` bytes; four bytes at most
/// per character keep the bound below.
#[verifier::external_body]
pub(crate) fn parse_html(html: &str) -> (r: DomNode)
    requires
        html@.len() <= MAX_MARKUP_CHARS,
    ensures
        r == parsed_html(html@),
{
    let opts = ParseOpts {
        tree_builder: TreeBuilderOpts { drop_doctype: true, ..Default::default() },
        ..Default::default()
    };
    let dom = html5ever::parse_document(RcDom::default(), opts).one(html);
    dom_from_handle(&dom.document)
}

} // verus!
