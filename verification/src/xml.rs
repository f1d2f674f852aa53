//! An XML element tree: element names and attribute keys without namespace
//! prefixes, child elements in document order and the concatenated text, with
//! the lookups the format adapters use and a builder that assembles the tree
//! from parse events.
use vstd::prelude::*;

use crate::text::{
    chars_eq, chars_of, last_piece, last_piece_chars, str_eq, string_of, trim, trim_chars,
};

verus! {

/// An XML element.
#[derive(Debug)]
pub struct XmlNode {
    pub name: String,
    pub attributes: Vec<(String, String)>,
    pub children: Vec<XmlNode>,
    pub text: String,
}

/// Why a document could not be assembled into a tree.
#[derive(Debug)]
pub enum XmlNodeError {
    MissingRoot,
    MultipleRoots,
    UnexpectedEnd,
    UnclosedElement,
    /// The XML reader failed; its message.
    Xml(String),
    /// An attribute could not be read; its message.
    Attribute(String),
    /// Text could not be decoded; its message.
    Encoding(String),
    /// The reader gave more events than the document has bytes.
    EventLimit,
}

/// The value of the first attribute named `key`.
pub open spec fn attr_value(attrs: Seq<(String, String)>, key: Seq<char>) -> Option<Seq<char>>
    decreases attrs.len(),
{
    if attrs.len() == 0 {
        None
    } else if attrs[0].0@ == key {
        Some(attrs[0].1@)
    } else {
        attr_value(attrs.subrange(1, attrs.len() as int), key)
    }
}

/// The first node named `name` in `nodes`.
pub open spec fn first_named(nodes: Seq<XmlNode>, name: Seq<char>) -> Option<XmlNode>
    decreases nodes.len(),
{
    if nodes.len() == 0 {
        None
    } else if nodes[0].name@ == name {
        Some(nodes[0])
    } else {
        first_named(nodes.subrange(1, nodes.len() as int), name)
    }
}

/// The text with surrounding white space removed, unless nothing is left.
pub open spec fn trimmed(text: Seq<char>) -> Option<Seq<char>> {
    if trim(text).len() > 0 {
        Some(trim(text))
    } else {
        None
    }
}

/// A node and all the nodes below it, in document order.
pub open spec fn preorder(n: XmlNode) -> Seq<XmlNode>
    decreases n,
{
    seq![n] + preorder_all(n.children@)
}

/// The nodes of each tree of `s`, in document order.
pub open spec fn preorder_all(s: Seq<XmlNode>) -> Seq<XmlNode>
    decreases s,
{
    if s.len() == 0 {
        Seq::<XmlNode>::empty()
    } else {
        preorder(s[0]) + preorder_all(s.subrange(1, s.len() as int))
    }
}

/// The nodes of `s` named `name`, in order.
pub open spec fn named(s: Seq<XmlNode>, name: Seq<char>) -> Seq<XmlNode>
    decreases s.len(),
{
    if s.len() == 0 {
        Seq::<XmlNode>::empty()
    } else if s.last().name@ == name {
        named(s.drop_last(), name).push(s.last())
    } else {
        named(s.drop_last(), name)
    }
}

pub proof fn lemma_named_append(a: Seq<XmlNode>, b: Seq<XmlNode>, name: Seq<char>)
    ensures
        named(a + b, name) == named(a, name) + named(b, name),
    decreases b.len(),
{
    if b.len() == 0 {
        assert(a + b =~= a);
        assert(named(a, name) + named(b, name) =~= named(a, name));
    } else {
        lemma_named_append(a, b.drop_last(), name);
        assert((a + b).drop_last() =~= a + b.drop_last());
        assert((a + b).last() == b.last());
        if b.last().name@ == name {
            assert(named(a, name) + named(b, name) =~= (named(a, name) + named(b.drop_last(), name)).push(b.last()));
        } else {
            assert(named(a, name) + named(b, name) =~= named(a, name) + named(b.drop_last(), name));
        }
    }
}

/// The local part of a qualified name (after the last `:`).
pub fn local_name(name: &str) -> (r: String)
    ensures
        r@ == last_piece(name@, ':'),
{
    let c = chars_of(name);
    let l = last_piece_chars(c.as_slice(), ':');
    string_of(l.as_slice())
}

/// The attributes after setting `key` to `value`: an existing attribute of that
/// name takes the value, otherwise the attribute is added at the end.
pub open spec fn with_attr(attrs: Seq<(Seq<char>, Seq<char>)>, key: Seq<char>, value: Seq<char>) -> Seq<(Seq<char>, Seq<char>)>
    decreases attrs.len(),
{
    if attrs.len() == 0 {
        seq![(key, value)]
    } else if attrs[0].0 == key {
        seq![(key, value)] + attrs.subrange(1, attrs.len() as int)
    } else {
        seq![attrs[0]] + with_attr(attrs.subrange(1, attrs.len() as int), key, value)
    }
}

/// The attributes that a list of attributes yields when each is set in turn.
pub open spec fn attrs_from(pairs: Seq<(Seq<char>, Seq<char>)>) -> Seq<(Seq<char>, Seq<char>)>
    decreases pairs.len(),
{
    if pairs.len() == 0 {
        Seq::<(Seq<char>, Seq<char>)>::empty()
    } else {
        with_attr(attrs_from(pairs.drop_last()), pairs.last().0, pairs.last().1)
    }
}

/// The nodes that references point to.
pub open spec fn derefs(s: Seq<&XmlNode>) -> Seq<XmlNode> {
    s.map_values(|n: &XmlNode| *n)
}

pub open spec fn attr_views(v: Seq<(String, String)>) -> Seq<(Seq<char>, Seq<char>)> {
    v.map_values(|p: (String, String)| (p.0@, p.1@))
}

fn set_attr(attrs: &mut Vec<(String, String)>, key: String, value: String)
    ensures
        attr_views(final(attrs)@) == with_attr(attr_views(old(attrs)@), key@, value@),
{
    let ghost start = attr_views(attrs@);
    let mut i: usize = 0;
    while i < attrs.len()
        invariant
            i <= attrs@.len(),
            start == attr_views(old(attrs)@),
            attrs@ == old(attrs)@,
            forall|k: int| 0 <= k < i ==> attrs@[k].0@ != key@,
        decreases attrs@.len() - i,
    {
        if str_eq(attrs[i].0.as_str(), key.as_str()) {
            proof {
                lemma_with_attr_at(start, i as int, key@, value@);
            }
            attrs.set(i, (key, value));
            assert(attr_views(attrs@) =~= start.update(i as int, (key@, value@)));
            return ;
        }
        i = i + 1;
    }
    proof {
        lemma_with_attr_absent(start, key@, value@);
    }
    attrs.push((key, value));
    assert(attr_views(attrs@) =~= start.push((key@, value@)));
}

proof fn lemma_with_attr_at(
    attrs: Seq<(Seq<char>, Seq<char>)>,
    i: int,
    key: Seq<char>,
    value: Seq<char>,
)
    requires
        0 <= i < attrs.len(),
        attrs[i].0 == key,
        forall|k: int| 0 <= k < i ==> attrs[k].0 != key,
    ensures
        with_attr(attrs, key, value) == attrs.update(i, (key, value)),
    decreases i,
{
    if i == 0 {
        assert(seq![(key, value)] + attrs.subrange(1, attrs.len() as int) =~= attrs.update(
            0,
            (key, value),
        ));
    } else {
        let rest = attrs.subrange(1, attrs.len() as int);
        lemma_with_attr_at(rest, i - 1, key, value);
        assert(seq![attrs[0]] + rest.update(i - 1, (key, value)) =~= attrs.update(i, (key, value)));
    }
}

proof fn lemma_with_attr_absent(attrs: Seq<(Seq<char>, Seq<char>)>, key: Seq<char>, value: Seq<char>)
    requires
        forall|k: int| 0 <= k < attrs.len() ==> attrs[k].0 != key,
    ensures
        with_attr(attrs, key, value) == attrs.push((key, value)),
    decreases attrs.len(),
{
    if attrs.len() > 0 {
        let rest = attrs.subrange(1, attrs.len() as int);
        lemma_with_attr_absent(rest, key, value);
        assert(seq![attrs[0]] + rest.push((key, value)) =~= attrs.push((key, value)));
    }
}

impl XmlNode {
    /// An element read from a start tag: its qualified name and attribute keys are
    /// reduced to their local parts, and a repeated key keeps the later value.
    pub fn element(qualified_name: &str, attributes: Vec<(String, String)>) -> (n: XmlNode)
        ensures
            n.name@ == last_piece(qualified_name@, ':'),
            attr_views(n.attributes@) == attrs_from(
                attributes@.map_values(
                    |p: (String, String)| (last_piece(p.0@, ':'), p.1@),
                ),
            ),
            n.children@.len() == 0,
            n.text@.len() == 0,
    {
        let ghost source = attributes@.map_values(
            |p: (String, String)| (last_piece(p.0@, ':'), p.1@),
        );
        let mut attrs: Vec<(String, String)> = Vec::new();
        let mut i: usize = 0;
        while i < attributes.len()
            invariant
                i <= attributes@.len(),
                source == attributes@.map_values(
                    |p: (String, String)| (last_piece(p.0@, ':'), p.1@),
                ),
                attr_views(attrs@) == attrs_from(source.subrange(0, i as int)),
            decreases attributes@.len() - i,
        {
            let key = local_name(attributes[i].0.as_str());
            let value = attributes[i].1.clone();
            set_attr(&mut attrs, key, value);
            i = i + 1;
            assert(source.subrange(0, i as int).drop_last() =~= source.subrange(0, i - 1));
        }
        assert(source.subrange(0, attributes@.len() as int) =~= source);
        XmlNode {
            name: local_name(qualified_name),
            attributes: attrs,
            children: Vec::new(),
            text: String::new(),
        }
    }

    /// The value of attribute `name`.
    pub fn attr(&self, name: &str) -> (r: Option<&str>)
        ensures
            r matches Some(v) ==> attr_value(self.attributes@, name@) == Some(v@),
            r is None ==> attr_value(self.attributes@, name@) is None,
    {
        let mut i: usize = 0;
        assert(self.attributes@.subrange(0, self.attributes@.len() as int) =~= self.attributes@);
        while i < self.attributes.len()
            invariant
                i <= self.attributes@.len(),
                attr_value(self.attributes@, name@) == attr_value(
                    self.attributes@.subrange(i as int, self.attributes@.len() as int),
                    name@,
                ),
            decreases self.attributes@.len() - i,
        {
            let ghost rest = self.attributes@.subrange(i as int, self.attributes@.len() as int);
            assert(rest[0] == self.attributes@[i as int]);
            if str_eq(self.attributes[i].0.as_str(), name) {
                return Some(self.attributes[i].1.as_str());
            }
            i = i + 1;
            assert(rest.subrange(1, rest.len() as int) =~= self.attributes@.subrange(
                i as int,
                self.attributes@.len() as int,
            ));
        }
        None
    }

    /// The first child element named `name`.
    pub fn child(&self, name: &str) -> (r: Option<&XmlNode>)
        ensures
            r matches Some(c) ==> first_named(self.children@, name@) == Some(*c),
            r is None ==> first_named(self.children@, name@) is None,
    {
        let mut i: usize = 0;
        assert(self.children@.subrange(0, self.children@.len() as int) =~= self.children@);
        while i < self.children.len()
            invariant
                i <= self.children@.len(),
                first_named(self.children@, name@) == first_named(
                    self.children@.subrange(i as int, self.children@.len() as int),
                    name@,
                ),
            decreases self.children@.len() - i,
        {
            let ghost rest = self.children@.subrange(i as int, self.children@.len() as int);
            assert(rest[0] == self.children@[i as int]);
            if str_eq(self.children[i].name.as_str(), name) {
                return Some(&self.children[i]);
            }
            i = i + 1;
            assert(rest.subrange(1, rest.len() as int) =~= self.children@.subrange(
                i as int,
                self.children@.len() as int,
            ));
        }
        None
    }

    /// The element's text without surrounding white space, when any is left.
    pub fn trimmed_text(&self) -> (r: Option<String>)
        ensures
            r matches Some(t) ==> trimmed(self.text@) == Some(t@),
            r is None ==> trimmed(self.text@) is None,
    {
        let c = chars_of(self.text.as_str());
        let t = trim_chars(c.as_slice());
        if t.len() > 0 {
            Some(string_of(t.as_slice()))
        } else {
            None
        }
    }

    /// The trimmed text of the first child named `name`.
    pub fn child_text(&self, name: &str) -> (r: Option<String>)
        ensures
            r matches Some(t) ==> (first_named(self.children@, name@) matches Some(c) && trimmed(
                c.text@,
            ) == Some(t@)),
            r is None ==> (first_named(self.children@, name@) matches Some(c) ==> trimmed(
                c.text@,
            ) is None),
    {
        match self.child(name) {
            Some(c) => c.trimmed_text(),
            None => None,
        }
    }

    /// The elements named `name` at or below this one, in document order.
    pub fn descendants_named(&self, name: &str) -> (r: DescendantsNamed<'_>)
        ensures
            r.pending() == named(preorder(*self), name@),
    {
        let mut stack: Vec<&XmlNode> = Vec::new();
        stack.push(self);
        let r = DescendantsNamed { name: name.to_string(), stack };
        proof {
            assert(derefs(r.stack@) =~= seq![*self]);
            lemma_walk_push(Seq::<XmlNode>::empty(), *self);
            assert(seq![*self] =~= Seq::<XmlNode>::empty().push(*self));
            assert(walk_order(Seq::<XmlNode>::empty()) =~= Seq::<XmlNode>::empty());
            assert(preorder(*self) + Seq::<XmlNode>::empty() =~= preorder(*self));
        }
        r
    }

    /// The first element named `name` at or below this one.
    pub fn first_descendant(&self, name: &str) -> (r: Option<&XmlNode>)
        ensures
            r matches Some(n) ==> named(preorder(*self), name@).len() > 0 && *n == named(
                preorder(*self),
                name@,
            )[0],
            r is None ==> named(preorder(*self), name@).len() == 0,
    {
        let mut walk = self.descendants_named(name);
        walk.next()
    }
}

/// The nodes of a stack of trees in the order a depth-first walk visits them:
/// the tree on top (last) first, each in document order.
pub open spec fn walk_order(stack: Seq<XmlNode>) -> Seq<XmlNode> {
    preorder_all(stack.reverse())
}

pub proof fn lemma_walk_push(stack: Seq<XmlNode>, n: XmlNode)
    ensures
        walk_order(stack.push(n)) == preorder(n) + walk_order(stack),
{
    let r = stack.push(n).reverse();
    assert(r =~= seq![n] + stack.reverse());
    assert(r[0] == n);
    assert(r.subrange(1, r.len() as int) =~= stack.reverse());
}

/// A walk over the elements with one name at or below a node, in document
/// order: a stack of the trees still to visit, the next one on top.
pub struct DescendantsNamed<'a> {
    name: String,
    stack: Vec<&'a XmlNode>,
}

impl<'a> DescendantsNamed<'a> {
    /// The elements that the walk has yet to give, in order.
    pub closed spec fn pending(&self) -> Seq<XmlNode> {
        named(walk_order(derefs(self.stack@)), self.name@)
    }

    /// The next element of the walk, if any is left.
    pub fn next(&mut self) -> (r: Option<&'a XmlNode>)
        ensures
            old(self).pending().len() == 0 ==> r is None && final(self).pending().len() == 0,
            old(self).pending().len() > 0 ==> (r matches Some(n) && *n == old(self).pending()[0]
                && final(self).pending() == old(self).pending().drop_first()),
    {
        let ghost goal = self.pending();
        let ghost name = self.name@;
        while self.stack.len() > 0
            invariant
                self.name@ == name,
                goal == old(self).pending(),
                named(walk_order(derefs(self.stack@)), name) == goal,
            decreases walk_order(derefs(self.stack@)).len(),
        {
            let ghost before = derefs(self.stack@);
            let node = self.stack.pop().unwrap();
            let ghost rest = derefs(self.stack@);
            proof {
                assert(before =~= rest.push(*node));
                lemma_walk_push(rest, *node);
            }
            let mut i: usize = node.children.len();
            assert(node.children@.subrange(i as int, node.children@.len() as int) =~= Seq::<XmlNode>::empty());
            while i > 0
                invariant
                    i <= node.children@.len(),
                    self.name@ == name,
                    walk_order(derefs(self.stack@)) == preorder_all(
                        node.children@.subrange(i as int, node.children@.len() as int),
                    ) + walk_order(rest),
                decreases i,
            {
                let ghost prev = derefs(self.stack@);
                i = i - 1;
                self.stack.push(&node.children[i]);
                proof {
                    let tail = node.children@.subrange(i as int, node.children@.len() as int);
                    assert(derefs(self.stack@) =~= prev.push(node.children@[i as int]));
                    lemma_walk_push(prev, node.children@[i as int]);
                    assert(tail[0] == node.children@[i as int]);
                    assert(tail.subrange(1, tail.len() as int) =~= node.children@.subrange(
                        i + 1,
                        node.children@.len() as int,
                    ));
                    assert(walk_order(derefs(self.stack@)) =~= preorder_all(tail) + walk_order(rest));
                }
            }
            let ghost after = walk_order(derefs(self.stack@));
            proof {
                assert(node.children@.subrange(0, node.children@.len() as int) =~= node.children@);
                assert(preorder(*node) == seq![*node] + preorder_all(node.children@));
                assert(walk_order(before) =~= seq![*node] + after);
                lemma_named_append(seq![*node], after, name);
                assert(seq![*node].drop_last() =~= Seq::<XmlNode>::empty());
                assert(named(Seq::<XmlNode>::empty(), name) == Seq::<XmlNode>::empty());
            }
            if str_eq(node.name.as_str(), self.name.as_str()) {
                proof {
                    assert(named(seq![*node], name) =~= seq![*node]);
                    assert(goal =~= seq![*node] + named(after, name));
                    assert(goal.drop_first() =~= named(after, name));
                }
                return Some(node);
            }
            proof {
                assert(named(seq![*node], name) =~= Seq::<XmlNode>::empty());
                assert(goal =~= named(after, name));
            }
        }
        proof {
            assert(derefs(self.stack@) =~= Seq::<XmlNode>::empty());
            assert(derefs(self.stack@).reverse() =~= Seq::<XmlNode>::empty());
        }
        None
    }

    /// The elements that the walk has yet to give, in order.
    pub fn remaining(self) -> (r: Vec<&'a XmlNode>)
        ensures
            derefs(r@) == self.pending(),
    {
        let ghost all = self.pending();
        let mut walk = self;
        let mut out: Vec<&'a XmlNode> = Vec::new();
        loop
            invariant
                all == self.pending(),
                all == derefs(out@) + walk.pending(),
            decreases walk.pending().len(),
        {
            let ghost p = walk.pending();
            match walk.next() {
                Some(n) => {
                    let ghost o = derefs(out@);
                    out.push(n);
                    assert(derefs(out@) =~= o.push(*n));
                    assert(p =~= seq![*n] + p.drop_first());
                    assert(all =~= derefs(out@) + walk.pending());
                },
                None => {
                    assert(p.len() == 0);
                    assert(all =~= derefs(out@));
                    return out;
                },
            }
        }
    }
}

pub proof fn lemma_preorder_all_push(s: Seq<XmlNode>)
    requires
        s.len() > 0,
    ensures
        preorder_all(s) == preorder_all(s.drop_last()) + preorder(s.last()),
    decreases s.len(),
{
    let rest = s.subrange(1, s.len() as int);
    if s.len() == 1 {
        assert(rest =~= Seq::<XmlNode>::empty());
        assert(s.drop_last() =~= Seq::<XmlNode>::empty());
        assert(preorder_all(rest) == Seq::<XmlNode>::empty());
        assert(preorder(s[0]) + Seq::<XmlNode>::empty() =~= preorder(s[0]));
        assert(preorder_all(s) =~= preorder(s[0]));
    } else {
        lemma_preorder_all_push(rest);
        assert(rest.drop_last() =~= s.drop_last().subrange(1, s.drop_last().len() as int));
        assert(rest.last() == s.last());
        assert(s.drop_last()[0] == s[0]);
        assert(preorder_all(s) =~= preorder_all(s.drop_last()) + preorder(s.last()));
    }
}

// ---------------------------------------------------------------------------
// Building the tree from parse events
// ---------------------------------------------------------------------------

/// A tree under construction: the open elements, innermost last, and the root
/// once it has been closed.
pub struct XmlTreeBuilder {
    pub stack: Vec<XmlNode>,
    pub root: Option<XmlNode>,
}

/// Attaches a closed element to the innermost open element, or makes it the root;
/// a second root is an error.
pub fn append(stack: &mut Vec<XmlNode>, root: &mut Option<XmlNode>, node: XmlNode) -> (r: Result<
    (),
    XmlNodeError,
>)
    ensures
        old(stack)@.len() > 0 ==> r is Ok && *final(root) == *old(root) && final(stack)@.len()
            == old(stack)@.len() && final(stack)@.drop_last() == old(stack)@.drop_last() && ({
            let p = final(stack)@.last();
            let q = old(stack)@.last();
            p.name == q.name && p.attributes == q.attributes && p.text == q.text && p.children@
                == q.children@.push(node)
        }),
        old(stack)@.len() == 0 ==> final(stack)@ == old(stack)@ && (if *old(root) is Some {
            r matches Err(XmlNodeError::MultipleRoots)
        } else {
            r is Ok && *final(root) == Some(node)
        }),
{
    if stack.len() > 0 {
        let mut parent = stack.pop().unwrap();
        parent.children.push(node);
        stack.push(parent);
        return Ok(());
    }
    if root.is_some() {
        *root = Some(node);
        return Err(XmlNodeError::MultipleRoots);
    }
    *root = Some(node);
    Ok(())
}

impl XmlTreeBuilder {
    pub fn new() -> (b: Self)
        ensures
            b.stack@.len() == 0,
            b.root is None,
    {
        XmlTreeBuilder { stack: Vec::new(), root: None }
    }

    /// A start tag opens an element.
    pub fn start(&mut self, node: XmlNode)
        ensures
            final(self).stack@ == old(self).stack@.push(node),
            final(self).root == old(self).root,
    {
        self.stack.push(node);
    }

    /// An empty-element tag is a complete element.
    pub fn empty(&mut self, node: XmlNode) -> (r: Result<(), XmlNodeError>)
        ensures
            old(self).stack@.len() > 0 ==> r is Ok,
            old(self).stack@.len() == 0 ==> (r is Ok <==> old(self).root is None),
    {
        append(&mut self.stack, &mut self.root, node)
    }

    /// An end tag closes the innermost open element.
    pub fn end(&mut self) -> (r: Result<(), XmlNodeError>)
        ensures
            old(self).stack@.len() == 0 ==> r matches Err(XmlNodeError::UnexpectedEnd),
            old(self).stack@.len() >= 2 ==> r is Ok && final(self).stack@.len() == old(
                self,
            ).stack@.len() - 1,
            old(self).stack@.len() == 1 ==> (r is Ok <==> old(self).root is None),
            old(self).stack@.len() == 1 && old(self).root is None ==> final(self).root == Some(
                old(self).stack@[0],
            ) && final(self).stack@.len() == 0,
    {
        let node = match self.stack.pop() {
            Some(n) => n,
            None => return Err(XmlNodeError::UnexpectedEnd),
        };
        append(&mut self.stack, &mut self.root, node)
    }

    /// Text belongs to the innermost open element; outside every element it is
    /// ignored.
    pub fn text(&mut self, text: &str)
        ensures
            old(self).stack@.len() == 0 ==> final(self).stack@ == old(self).stack@,
            old(self).stack@.len() > 0 ==> final(self).stack@.len() == old(self).stack@.len()
                && final(self).stack@.last().text@ == old(self).stack@.last().text@ + text@,
            final(self).root == old(self).root,
    {
        if self.stack.len() == 0 {
            return ;
        }
        let mut node = self.stack.pop().unwrap();
        let joined = crate::text::concat(node.text.as_str(), text);
        node.text = joined;
        self.stack.push(node);
    }

    /// The finished tree: every element must be closed and there must be a root.
    pub fn finish(self) -> (r: Result<XmlNode, XmlNodeError>)
        ensures
            self.stack@.len() > 0 ==> r matches Err(XmlNodeError::UnclosedElement),
            self.stack@.len() == 0 && self.root is None ==> r matches Err(XmlNodeError::MissingRoot),
            self.stack@.len() == 0 && self.root is Some ==> (r matches Ok(n) && Some(n) == self.root),
    {
        if self.stack.len() > 0 {
            return Err(XmlNodeError::UnclosedElement);
        }
        match self.root {
            Some(n) => Ok(n),
            None => Err(XmlNodeError::MissingRoot),
        }
    }
}

} // verus!
