//! Parsing an XML document into an element tree: `quick_xml` reads the events,
//! and the tree is assembled from them here.
use vstd::prelude::*;

use quick_xml::events::Event;

use crate::text::last_piece;
use crate::xml::{XmlNode, XmlNodeError, append, attr_views, attrs_from};

verus! {

// ---------------------------------------------------------------------------
// The events of a document
// ---------------------------------------------------------------------------

/// What one read of the XML reader gave: an element start, an empty element,
/// an element end, text (unescaped), CDATA (as it stands), the end of the
/// document, another event (declaration, comment, ...), or a reader error
/// with its message.
#[derive(Debug)]
pub enum XmlEventKind {
    Start,
    Empty,
    End,
    Text(String),
    CData(String),
    Eof,
    Other,
    Failed(XmlNodeError),
}

/// An `XmlEventKind` as a mathematical value.
pub enum XmlKindView {
    Start,
    Empty,
    End,
    Text(Seq<char>),
    CData(Seq<char>),
    Eof,
    Other,
    Failed(XmlNodeError),
}

pub open spec fn kind_view(k: XmlEventKind) -> XmlKindView {
    match k {
        XmlEventKind::Start => XmlKindView::Start,
        XmlEventKind::Empty => XmlKindView::Empty,
        XmlEventKind::End => XmlKindView::End,
        XmlEventKind::Text(t) => XmlKindView::Text(t@),
        XmlEventKind::CData(t) => XmlKindView::CData(t@),
        XmlEventKind::Eof => XmlKindView::Eof,
        XmlEventKind::Other => XmlKindView::Other,
        XmlEventKind::Failed(e) => XmlKindView::Failed(e),
    }
}

/// The event that the reader (`quick_xml::reader::Reader` over the bytes, end
/// names checked, unmatched ends refused) gives at its read number `index`.
pub uninterp spec fn xml_event_kind(bytes: Seq<u8>, index: nat) -> XmlKindView;

/// The qualified name of the start or empty element that the reader gives at
/// read number `index`.
pub uninterp spec fn xml_start_name(bytes: Seq<u8>, index: nat) -> Seq<char>;

/// The attributes (keys as written, values normalized as XML 1.0) of the start
/// or empty element that the reader gives at read number `index`, or the
/// error reading an attribute gave.
pub uninterp spec fn xml_start_attributes(bytes: Seq<u8>, index: nat) -> Result<
    Seq<(Seq<char>, Seq<char>)>,
    XmlNodeError,
>;

/// An XML reader over a copy of a document, with the event it read last.
#[verifier::external_body]
pub struct XmlEventReader {
    reader: quick_xml::reader::Reader<std::io::Cursor<Vec<u8>>>,
    buffer: Vec<u8>,
    event: Option<Event<'static>>,
}

/// The document a reader reads.
pub uninterp spec fn xml_reader_input(r: XmlEventReader) -> Seq<u8>;

/// How many reads a reader has made.
pub uninterp spec fn xml_reader_reads(r: XmlEventReader) -> nat;

/// `quick_xml::reader::Reader::from_reader` over the bytes, with end names
/// checked and unmatched ends refused; nothing read yet.
#[verifier::external_body]
pub(crate) fn xml_event_reader(bytes: &[u8]) -> (r: XmlEventReader)
    ensures
        xml_reader_input(r) == bytes@,
        xml_reader_reads(r) == 0,
{
    let mut reader = quick_xml::reader::Reader::from_reader(std::io::Cursor::new(bytes.to_vec()));
    reader.config_mut().check_end_names = true;
    reader.config_mut().allow_unmatched_ends = false;
    XmlEventReader { reader, buffer: Vec::new(), event: None }
}

/// `Reader::read_event_into`: the next event, kept for the element lookup
/// below; text is `BytesText::xml_content` (XML 1.0), CDATA its content.
/// General entity references are events of their own in this reader, and
/// count as other events.
#[verifier::external_body]
pub(crate) fn xml_read_event(r: &mut XmlEventReader) -> (k: XmlEventKind)
    ensures
        kind_view(k) == xml_event_kind(xml_reader_input(*old(r)), xml_reader_reads(*old(r))),
        xml_reader_input(*final(r)) == xml_reader_input(*old(r)),
        xml_reader_reads(*final(r)) == xml_reader_reads(*old(r)) + 1,
{
    r.buffer.clear();
    match r.reader.read_event_into(&mut r.buffer) {
        Ok(e) => r.event = Some(e.into_owned()),
        Err(e) => return XmlEventKind::Failed(XmlNodeError::Xml(e.to_string())),
    }
    match &r.event {
        Some(Event::Start(_)) => XmlEventKind::Start,
        Some(Event::Empty(_)) => XmlEventKind::Empty,
        Some(Event::End(_)) => XmlEventKind::End,
        Some(Event::Text(t)) => XmlEventKind::Text(t.xml_content(quick_xml::XmlVersion::Implicit1_0).into_owned()),
        Some(Event::CData(t)) => XmlEventKind::CData(t.to_string()),
        Some(Event::Eof) => XmlEventKind::Eof,
        _ => XmlEventKind::Other,
    }
}

/// The qualified name of the start or empty element read last
/// (`BytesStart::name`).
#[verifier::external_body]
pub(crate) fn xml_start_name_of(r: &XmlEventReader) -> (x: String)
    requires
        xml_reader_reads(*r) > 0,
        xml_event_kind(xml_reader_input(*r), (xml_reader_reads(*r) - 1) as nat) is Start
            || xml_event_kind(xml_reader_input(*r), (xml_reader_reads(*r) - 1) as nat) is Empty,
    ensures
        x@ == xml_start_name(xml_reader_input(*r), (xml_reader_reads(*r) - 1) as nat),
{
    match &r.event {
        Some(Event::Start(s)) | Some(Event::Empty(s)) => s.name().as_ref().to_owned(),
        _ => String::new(),
    }
}

/// The attributes of the start or empty element read last (`attributes`,
/// `Attribute::normalized_value`); an attribute that does not parse, or whose
/// value does not normalize, is the error.
#[verifier::external_body]
pub(crate) fn xml_start_attributes_of(r: &XmlEventReader) -> (x: Result<Vec<(String, String)>, XmlNodeError>)
    requires
        xml_reader_reads(*r) > 0,
        xml_event_kind(xml_reader_input(*r), (xml_reader_reads(*r) - 1) as nat) is Start
            || xml_event_kind(xml_reader_input(*r), (xml_reader_reads(*r) - 1) as nat) is Empty,
    ensures
        match x {
            Ok(a) => xml_start_attributes(xml_reader_input(*r), (xml_reader_reads(*r) - 1) as nat) == Ok::<
                Seq<(Seq<char>, Seq<char>)>,
                XmlNodeError,
            >(attr_views(a@)),
            Err(e) => xml_start_attributes(xml_reader_input(*r), (xml_reader_reads(*r) - 1) as nat) == Err::<
                Seq<(Seq<char>, Seq<char>)>,
                XmlNodeError,
            >(e),
        },
{
    match &r.event {
        Some(Event::Start(s)) | Some(Event::Empty(s)) => s.attributes().map(|a| match a {
            Ok(a) => a.normalized_value(quick_xml::XmlVersion::Implicit1_0)
                .map(|v| (a.key.as_ref().to_owned(), v.into_owned()))
                .map_err(|e| XmlNodeError::Xml(e.to_string())),
            Err(e) => Err(XmlNodeError::Attribute(e.to_string())),
        }).collect(),
        _ => Ok(Vec::new()),
    }
}

// ---------------------------------------------------------------------------
// The tree the events build
// ---------------------------------------------------------------------------

/// An element tree as a mathematical value.
pub struct XmlTree {
    pub name: Seq<char>,
    pub attributes: Seq<(Seq<char>, Seq<char>)>,
    pub children: Seq<XmlTree>,
    pub text: Seq<char>,
}

/// The tree of an element.
pub open spec fn tree(n: XmlNode) -> XmlTree
    decreases n, 1nat,
{
    XmlTree { name: n.name@, attributes: attr_views(n.attributes@), children: trees(n.children@), text: n.text@ }
}

/// The trees of a list of elements.
pub open spec fn trees(s: Seq<XmlNode>) -> Seq<XmlTree>
    decreases s, 0nat,
{
    if s.len() == 0 {
        Seq::empty()
    } else {
        trees(s.subrange(0, s.len() - 1)).push(tree(s[s.len() - 1]))
    }
}

/// A tree under construction: the open elements, innermost last, and the root
/// once it has been closed.
pub struct XmlBuild {
    pub stack: Seq<XmlTree>,
    pub root: Option<XmlTree>,
}

/// The element a start tag opens.
pub open spec fn opened(name: Seq<char>, attrs: Seq<(Seq<char>, Seq<char>)>) -> XmlTree {
    XmlTree {
        name: last_piece(name, ':'),
        attributes: attrs_from(attrs.map_values(|p: (Seq<char>, Seq<char>)| (last_piece(p.0, ':'), p.1))),
        children: Seq::empty(),
        text: Seq::empty(),
    }
}

/// A closed element joins the innermost open element, or becomes the root; a
/// second root is an error.
pub open spec fn attach(b: XmlBuild, t: XmlTree) -> Result<XmlBuild, XmlNodeError> {
    if b.stack.len() > 0 {
        let p = b.stack.last();
        Ok(XmlBuild {
            stack: b.stack.drop_last().push(XmlTree { name: p.name, attributes: p.attributes, children: p.children.push(t), text: p.text }),
            root: b.root,
        })
    } else if b.root is Some {
        Err(XmlNodeError::MultipleRoots)
    } else {
        Ok(XmlBuild { stack: b.stack, root: Some(t) })
    }
}

/// What the event at read number `i` does to the tree (an end of the document
/// or a reader error ends the parse instead).
pub open spec fn step(b: XmlBuild, bytes: Seq<u8>, i: nat) -> Result<XmlBuild, XmlNodeError> {
    match xml_event_kind(bytes, i) {
        XmlKindView::Start => match xml_start_attributes(bytes, i) {
            Ok(attrs) => Ok(XmlBuild { stack: b.stack.push(opened(xml_start_name(bytes, i), attrs)), root: b.root }),
            Err(e) => Err(e),
        },
        XmlKindView::Empty => match xml_start_attributes(bytes, i) {
            Ok(attrs) => attach(b, opened(xml_start_name(bytes, i), attrs)),
            Err(e) => Err(e),
        },
        XmlKindView::End => if b.stack.len() == 0 {
            Err(XmlNodeError::UnexpectedEnd)
        } else {
            attach(XmlBuild { stack: b.stack.drop_last(), root: b.root }, b.stack.last())
        },
        XmlKindView::Text(t) | XmlKindView::CData(t) => if b.stack.len() == 0 {
            Ok(b)
        } else {
            let p = b.stack.last();
            Ok(XmlBuild { stack: b.stack.drop_last().push(XmlTree { name: p.name, attributes: p.attributes, children: p.children, text: p.text + t }), root: b.root })
        },
        _ => Ok(b),
    }
}

/// The tree after the first `n` events.
pub open spec fn build(bytes: Seq<u8>, n: nat) -> Result<XmlBuild, XmlNodeError>
    decreases n,
{
    if n == 0 {
        Ok(XmlBuild { stack: Seq::empty(), root: None })
    } else {
        match build(bytes, (n - 1) as nat) {
            Ok(b) => step(b, bytes, (n - 1) as nat),
            Err(e) => Err(e),
        }
    }
}

pub open spec fn stops(k: XmlKindView) -> bool {
    k is Eof || k is Failed
}

/// The parse ends at read number `n` (at most the document's length): no earlier read ended the document or
/// failed, and no earlier event was refused, while this one does one of these.
pub open spec fn ends_at(bytes: Seq<u8>, n: nat) -> bool {
    &&& n <= bytes.len()
    &&& forall|i: nat| i < n ==> !stops(#[trigger] xml_event_kind(bytes, i)) && build(bytes, i + 1) is Ok
    &&& (build(bytes, n + 1) is Err || stops(xml_event_kind(bytes, n)))
}

/// The result of a parse that ends at read number `n`: the error that ended
/// it, or at the end of the document the root, where every element is closed
/// and there is one.
pub open spec fn parse_result(bytes: Seq<u8>, n: nat) -> Result<XmlTree, XmlNodeError> {
    match build(bytes, n) {
        Err(e) => Err(e),
        Ok(b) => match xml_event_kind(bytes, n) {
            XmlKindView::Failed(e) => Err(e),
            XmlKindView::Eof => if b.stack.len() > 0 {
                Err(XmlNodeError::UnclosedElement)
            } else {
                match b.root {
                    Some(t) => Ok(t),
                    None => Err(XmlNodeError::MissingRoot),
                }
            },
            _ => match step(b, bytes, n) {
                Err(e) => Err(e),
                Ok(_) => Err(XmlNodeError::MissingRoot),
            },
        },
    }
}


/// No read before read number `m` ended the document or failed, and no event
/// was refused.
pub open spec fn runs_through(bytes: Seq<u8>, m: nat) -> bool {
    forall|i: nat| i < m ==> !stops(#[trigger] xml_event_kind(bytes, i)) && build(bytes, i + 1) is Ok
}

/// What a parse of `bytes` may give: the result of a parse that ends at some
/// read number, or `EventLimit` where no read up to the document's length ends
/// it.
pub open spec fn parses_to(bytes: Seq<u8>, r: Result<XmlNode, XmlNodeError>) -> bool {
    ||| exists|n: nat| ends_at(bytes, n) && result_view(r) == parse_result(bytes, n)
    ||| runs_through(bytes, (bytes.len() + 1) as nat) && r matches Err(XmlNodeError::EventLimit)
}

pub open spec fn result_view(r: Result<XmlNode, XmlNodeError>) -> Result<XmlTree, XmlNodeError> {
    match r {
        Ok(n) => Ok(tree(n)),
        Err(e) => Err(e),
    }
}

pub open spec fn opt_tree(o: Option<XmlNode>) -> Option<XmlTree> {
    match o {
        Some(n) => Some(tree(n)),
        None => None,
    }
}

proof fn lemma_trees_push(s: Seq<XmlNode>, x: XmlNode)
    ensures
        trees(s.push(x)) == trees(s).push(tree(x)),
{
    assert(s.push(x).subrange(0, s.len() as int) =~= s);
}

proof fn lemma_trees_last(s: Seq<XmlNode>)
    requires
        s.len() > 0,
    ensures
        trees(s) == trees(s.drop_last()).push(tree(s.last())),
        trees(s).drop_last() == trees(s.drop_last()),
        trees(s).last() == tree(s.last()),
        trees(s).len() == s.len(),
    decreases s.len(),
{
    assert(s.subrange(0, s.len() - 1) =~= s.drop_last());
    assert(trees(s).drop_last() =~= trees(s.drop_last()));
    if s.len() > 1 {
        lemma_trees_last(s.drop_last());
    }
}

impl XmlNode {
    /// Parses an XML document into its element tree: the events are read
    /// until the end of the document or a failure (see `ends_at` and
    /// `parse_result`). A document that would need more reads than it has
    /// bytes is refused with `EventLimit`.
    pub fn parse(bytes: &[u8]) -> (r: Result<XmlNode, XmlNodeError>)
        ensures
            parses_to(bytes@, r),
    {
        let mut reader = xml_event_reader(bytes);
        let mut stack: Vec<XmlNode> = Vec::new();
        let mut root: Option<XmlNode> = None;
        let mut count: usize = 0;
        assert(trees(stack@) =~= Seq::<XmlTree>::empty());
        loop
            invariant
                xml_reader_input(reader) == bytes@,
                xml_reader_reads(reader) == count,
                count <= bytes@.len(),
                build(bytes@, count as nat) == Ok::<XmlBuild, XmlNodeError>(XmlBuild { stack: trees(stack@), root: opt_tree(root) }),
                runs_through(bytes@, count as nat),
            decreases bytes@.len() - count,
        {
            let ghost b = XmlBuild { stack: trees(stack@), root: opt_tree(root) };
            let ghost i = count as nat;
            let k = xml_read_event(&mut reader);
            assert(build(bytes@, i + 1) == step(b, bytes@, i));
            match k {
                XmlEventKind::Eof => {
                    assert(ends_at(bytes@, i));
                    if stack.len() > 0 {
                        return Err(XmlNodeError::UnclosedElement);
                    }
                    return match root {
                        Some(t) => Ok(t),
                        None => Err(XmlNodeError::MissingRoot),
                    };
                },
                XmlEventKind::Failed(e) => {
                    assert(ends_at(bytes@, i));
                    return Err(e);
                },
                XmlEventKind::Start => {
                    let name = xml_start_name_of(&reader);
                    match xml_start_attributes_of(&reader) {
                        Ok(attrs) => {
                            let node = XmlNode::element(name.as_str(), attrs);
                            proof {
                                assert(attrs@.map_values(|p: (String, String)| (last_piece(p.0@, ':'), p.1@))
                                    =~= attr_views(attrs@).map_values(|p: (Seq<char>, Seq<char>)| (last_piece(p.0, ':'), p.1)));
                                assert(trees(node.children@) =~= Seq::<XmlTree>::empty());
                                assert(node.text@ =~= Seq::<char>::empty());
                                assert(tree(node) =~= opened(name@, attr_views(attrs@)));
                                lemma_trees_push(stack@, node);
                            }
                            stack.push(node);
                            assert(build(bytes@, i + 1) == Ok::<XmlBuild, XmlNodeError>(XmlBuild { stack: trees(stack@), root: opt_tree(root) }));
                        },
                        Err(e) => {
                            assert(ends_at(bytes@, i));
                            return Err(e);
                        },
                    }
                },
                XmlEventKind::Empty => {
                    let name = xml_start_name_of(&reader);
                    match xml_start_attributes_of(&reader) {
                        Ok(attrs) => {
                            let node = XmlNode::element(name.as_str(), attrs);
                            proof {
                                assert(attrs@.map_values(|p: (String, String)| (last_piece(p.0@, ':'), p.1@))
                                    =~= attr_views(attrs@).map_values(|p: (Seq<char>, Seq<char>)| (last_piece(p.0, ':'), p.1)));
                                assert(trees(node.children@) =~= Seq::<XmlTree>::empty());
                                assert(node.text@ =~= Seq::<char>::empty());
                                assert(tree(node) =~= opened(name@, attr_views(attrs@)));
                            }
                            let ghost before = stack@;
                            let ghost nv = node;
                            match append(&mut stack, &mut root, node) {
                                Ok(()) => {
                                    proof {
                                        if before.len() > 0 {
                                            lemma_trees_last(before);
                                            lemma_trees_last(stack@);
                                            lemma_trees_push(before.last().children@, nv);
                                            assert(stack@.drop_last() == before.drop_last());
                                        }
                                    }
                                    assert(build(bytes@, i + 1) == Ok::<XmlBuild, XmlNodeError>(XmlBuild { stack: trees(stack@), root: opt_tree(root) }));
                                },
                                Err(e) => {
                                    assert(ends_at(bytes@, i));
                                    return Err(e);
                                },
                            }
                        },
                        Err(e) => {
                            assert(ends_at(bytes@, i));
                            return Err(e);
                        },
                    }
                },
                XmlEventKind::End => {
                    let ghost before = stack@;
                    match stack.pop() {
                        None => {
                            assert(ends_at(bytes@, i));
                            return Err(XmlNodeError::UnexpectedEnd);
                        },
                        Some(node) => {
                            proof {
                                lemma_trees_last(before);
                            }
                            let ghost mid = stack@;
                            let ghost nv = node;
                            match append(&mut stack, &mut root, node) {
                                Ok(()) => {
                                    proof {
                                        if mid.len() > 0 {
                                            lemma_trees_last(mid);
                                            lemma_trees_last(stack@);
                                            lemma_trees_push(mid.last().children@, nv);
                                            assert(stack@.drop_last() == mid.drop_last());
                                        }
                                    }
                                    assert(build(bytes@, i + 1) == Ok::<XmlBuild, XmlNodeError>(XmlBuild { stack: trees(stack@), root: opt_tree(root) }));
                                },
                                Err(e) => {
                                    assert(ends_at(bytes@, i));
                                    return Err(e);
                                },
                            }
                        },
                    }
                },
                XmlEventKind::Text(t) | XmlEventKind::CData(t) => {
                    if stack.len() > 0 {
                        let ghost before = stack@;
                        let mut node = stack.pop().unwrap();
                        let ghost old_node = node;
                        let joined = crate::text::concat(node.text.as_str(), t.as_str());
                        node.text = joined;
                        proof {
                            lemma_trees_last(before);
                            lemma_trees_push(stack@, node);
                            assert(tree(node) == XmlTree { name: tree(old_node).name, attributes: tree(old_node).attributes, children: tree(old_node).children, text: tree(old_node).text + t@ });
                        }
                        stack.push(node);
                        assert(build(bytes@, i + 1) == Ok::<XmlBuild, XmlNodeError>(XmlBuild { stack: trees(stack@), root: opt_tree(root) }));
                    }
                },
                XmlEventKind::Other => {},
            }
            assert(build(bytes@, i + 1) == Ok::<XmlBuild, XmlNodeError>(XmlBuild { stack: trees(stack@), root: opt_tree(root) }));
            assert(runs_through(bytes@, i + 1)) by {
                assert forall|j: nat| j < i + 1 implies !stops(#[trigger] xml_event_kind(bytes@, j)) && build(bytes@, j + 1) is Ok by {
                    if j < i {
                    }
                }
            }
            if count == bytes.len() {
                return Err(XmlNodeError::EventLimit);
            }
            count = count + 1;
        }
    }
}

} // verus!
