//! The event model of a parsed vector-markup document: start tags with their
//! attributes and namespace bindings, end tags, and character data. Parsing
//! goes through the `xml` crate behind a trusted boundary; writing a document
//! back out is this library's own verified emitter.

use vstd::prelude::*;

use vstd::string::StringSliceAdditionalSpecFns;

use crate::text::push_lit;

verus! {

/// One attribute: qualified name and value, as UTF-8 bytes.
pub struct Attr {
    pub name: Vec<u8>,
    pub value: Vec<u8>,
}

/// The view of an attribute: (name bytes, value bytes).
impl View for Attr {
    type V = (Seq<u8>, Seq<u8>);

    open spec fn view(&self) -> (Seq<u8>, Seq<u8>) {
        (self.name@, self.value@)
    }
}

impl DeepView for Attr {
    type V = (Seq<u8>, Seq<u8>);

    open spec fn deep_view(&self) -> (Seq<u8>, Seq<u8>) {
        self.view()
    }
}

/// One event of a parsed document.
pub enum XmlPiece {
    /// A start tag: qualified element name, its attributes, and the namespace
    /// bindings in scope (prefix, URI; the empty prefix is the default
    /// namespace).
    Start { name: Vec<u8>, attrs: Vec<Attr>, ns: Vec<Attr> },
    /// An end tag.
    End { name: Vec<u8> },
    /// Character data between tags, unescaped.
    Text { content: Vec<u8> },
}

/// The view of an event.
#[verifier::ext_equal]
pub enum PieceView {
    Start { name: Seq<u8>, attrs: Seq<(Seq<u8>, Seq<u8>)>, ns: Seq<(Seq<u8>, Seq<u8>)> },
    End { name: Seq<u8> },
    Text { content: Seq<u8> },
}

impl View for XmlPiece {
    type V = PieceView;

    open spec fn view(&self) -> PieceView {
        match self {
            XmlPiece::Start { name, attrs, ns } => PieceView::Start {
                name: name@,
                attrs: attrs.deep_view(),
                ns: ns.deep_view(),
            },
            XmlPiece::End { name } => PieceView::End { name: name@ },
            XmlPiece::Text { content } => PieceView::Text { content: content@ },
        }
    }
}

impl DeepView for XmlPiece {
    type V = PieceView;

    open spec fn deep_view(&self) -> PieceView {
        self.view()
    }
}

/// The event stream that the `xml` crate's reader produces for a document:
/// start, end and character events in document order, with qualified names,
/// stopping at the first parse error.
pub uninterp spec fn xml_events_of(text: Seq<u8>) -> Seq<PieceView>;

/// Relies on `xml::reader::EventReader`: parses the document and yields its
/// events in order. Start and end tags and character data are kept (qualified
/// names as `prefix:local`); other event kinds are dropped, and the stream
/// ends at the first parse error.
#[verifier::external_body]
pub fn parse_xml(text: &Vec<u8>) -> (r: Vec<XmlPiece>)
    ensures
        r.deep_view() == xml_events_of(text@),
{
    let src = String::from_utf8_lossy(text);
    let mut out: Vec<XmlPiece> = Vec::new();
    for e in xml::reader::EventReader::from_str(&src) {
        match e {
            Ok(xml::reader::XmlEvent::StartElement { name, attributes, namespace }) => out.push(XmlPiece::Start { name: qualified(&name), attrs: conv_attrs(&attributes), ns: conv_ns(&namespace) }),
            Ok(xml::reader::XmlEvent::EndElement { name }) => out.push(XmlPiece::End { name: qualified(&name) }),
            Ok(xml::reader::XmlEvent::Characters(c)) => out.push(XmlPiece::Text { content: c.into_bytes() }),
            _ => (),
        }
    }
    out
}

#[verifier::external_type_specification]
#[verifier::external_body]
pub struct ExOwnedName(xml::name::OwnedName);

#[verifier::external_type_specification]
#[verifier::external_body]
pub struct ExOwnedAttribute(xml::attribute::OwnedAttribute);

#[verifier::external_type_specification]
#[verifier::external_body]
pub struct ExNamespace(xml::namespace::Namespace);

/// Relies on `xml::name::OwnedName`: the qualified name is the local name,
/// prefixed with `prefix:` where a prefix is present.
#[verifier::external_body]
fn qualified(n: &xml::name::OwnedName) -> (r: Vec<u8>)
{
    match &n.prefix {
        Some(p) => format!("{}:{}", p, n.local_name).into_bytes(),
        None => n.local_name.as_bytes().to_vec(),
    }
}

/// Relies on `xml::attribute::OwnedAttribute`: each attribute becomes its
/// qualified name and value.
#[verifier::external_body]
fn conv_attrs(attributes: &Vec<xml::attribute::OwnedAttribute>) -> (r: Vec<Attr>)
{
    attributes.iter().map(|a| Attr { name: qualified(&a.name), value: a.value.clone().into_bytes() }).collect()
}

/// Relies on `xml::namespace::Namespace`: each in-scope binding becomes a
/// (prefix, URI) pair; the default namespace has the empty prefix.
#[verifier::external_body]
fn conv_ns(namespace: &xml::namespace::Namespace) -> (r: Vec<Attr>)
{
    namespace.iter().map(|(p, u)| Attr { name: p.as_bytes().to_vec(), value: u.as_bytes().to_vec() }).collect()
}

/// The local part of a qualified name: everything after the last colon.
pub open spec fn local_name_spec(q: Seq<u8>) -> Seq<u8>
    decreases q.len(),
{
    if q.len() == 0 {
        q
    } else if q.last() == 58 {
        Seq::empty()
    } else {
        local_name_spec(q.drop_last()).push(q.last())
    }
}

/// The local part of a qualified name.
pub fn local_name(q: &Vec<u8>) -> (r: Vec<u8>)
    ensures
        r@ == local_name_spec(q@),
{
    let n: usize = q.len();
    let mut start: usize = n;
    while start > 0
        invariant
            q@.len() == n,
            start <= n,
            forall|j: int| start <= j < n ==> q@[j] != 58,
        decreases start,
    {
        if q[start - 1] == 58 {
            proof {
                lemma_local_name_from(q@, start as int);
            }
            let mut r: Vec<u8> = Vec::new();
            let mut i: usize = start;
            while i < n
                invariant
                    q@.len() == n,
                    start <= i <= n,
                    r@ =~= q@.subrange(start as int, i as int),
                decreases n - i,
            {
                r.push(q[i]);
                proof {
                    assert(r@ =~= q@.subrange(start as int, i as int + 1));
                }
                i = i + 1;
            }
            proof {
                assert(r@ =~= q@.skip(start as int));
            }
            return r;
        }
        start = start - 1;
    }
    proof {
        lemma_local_name_from(q@, 0);
        assert(q@.skip(0) =~= q@);
    }
    crate::text::clone_bytes(q)
}

/// When every byte from `k` on is not a colon and the byte before `k` is one
/// (or `k` is the start), the local name is the suffix from `k`.
proof fn lemma_local_name_from(q: Seq<u8>, k: int)
    requires
        0 <= k <= q.len(),
        forall|j: int| k <= j < q.len() ==> q[j] != 58,
        k > 0 ==> q[k - 1] == 58,
    ensures
        local_name_spec(q) =~= q.skip(k),
    decreases q.len() - k,
{
    if k < q.len() {
        lemma_local_name_from(q.drop_last(), k);
        assert(q.drop_last().skip(k) =~= q.skip(k).drop_last());
        assert(local_name_spec(q) =~= local_name_spec(q.drop_last()).push(q.last()));
    } else {
        if k == 0 {
            assert(q.len() == 0);
        } else {
            lemma_local_name_empty(q, k);
        }
    }
}

proof fn lemma_local_name_empty(q: Seq<u8>, k: int)
    requires
        0 < k == q.len(),
        q[k - 1] == 58,
    ensures
        local_name_spec(q) =~= q.skip(k),
{
}

/// The XML escape of one byte in character data and attribute values: the
/// five predefined entities, everything else verbatim.
pub open spec fn xml_escape_byte(b: u8) -> Seq<u8> {
    if b == 38 {
        ("&amp;").spec_bytes()
    } else if b == 60 {
        ("&lt;").spec_bytes()
    } else if b == 62 {
        ("&gt;").spec_bytes()
    } else if b == 34 {
        ("&quot;").spec_bytes()
    } else if b == 39 {
        ("&apos;").spec_bytes()
    } else {
        seq![b]
    }
}

pub open spec fn xml_escape(s: Seq<u8>) -> Seq<u8>
    decreases s.len(),
{
    if s.len() == 0 {
        Seq::empty()
    } else {
        xml_escape(s.drop_last()) + xml_escape_byte(s.last())
    }
}

/// Append the XML-escaped form of a byte string.
pub fn push_xml_escaped(out: &mut Vec<u8>, s: &Vec<u8>)
    ensures
        final(out)@ == old(out)@ + xml_escape(s@),
{
    let n: usize = s.len();
    let mut i: usize = 0;
    while i < n
        invariant
            s@.len() == n,
            i <= n,
            out@ =~= old(out)@ + xml_escape(s@.take(i as int)),
        decreases n - i,
    {
        let b = s[i];
        if b == 38 {
            push_lit(out, "&amp;");
        } else if b == 60 {
            push_lit(out, "&lt;");
        } else if b == 62 {
            push_lit(out, "&gt;");
        } else if b == 34 {
            push_lit(out, "&quot;");
        } else if b == 39 {
            push_lit(out, "&apos;");
        } else {
            out.push(b);
        }
        proof {
            assert(s@.take(i as int + 1).drop_last() =~= s@.take(i as int));
            assert(s@.take(i as int + 1).last() == s@[i as int]);
            assert(out@ =~= old(out)@ + xml_escape(s@.take(i as int + 1)));
        }
        i = i + 1;
    }
    proof {
        assert(s@.take(n as int) =~= s@);
    }
}

/// The text of one attribute: ` name="escaped value"`.
pub open spec fn attr_text(a: (Seq<u8>, Seq<u8>)) -> Seq<u8> {
    (" ").spec_bytes() + a.0 + ("=\"").spec_bytes() + xml_escape(a.1) + ("\"").spec_bytes()
}

pub open spec fn attrs_text(attrs: Seq<(Seq<u8>, Seq<u8>)>) -> Seq<u8>
    decreases attrs.len(),
{
    if attrs.len() == 0 {
        Seq::empty()
    } else {
        attrs_text(attrs.drop_last()) + attr_text(attrs.last())
    }
}

/// The namespace bindings of a start tag as `xmlns` attributes: the default
/// namespace as `xmlns`, a prefixed binding as `xmlns:prefix`; the built-in
/// `xml` and `xmlns` bindings and the empty default binding are left out.
pub open spec fn ns_attr_text(a: (Seq<u8>, Seq<u8>)) -> Seq<u8> {
    if a.0 == ("xml").spec_bytes() || a.0 == ("xmlns").spec_bytes() || (a.0 == Seq::<
        u8,
    >::empty() && a.1 == Seq::<u8>::empty()) {
        Seq::empty()
    } else if a.0 == Seq::<u8>::empty() {
        (" xmlns=\"").spec_bytes() + xml_escape(a.1) + ("\"").spec_bytes()
    } else {
        (" xmlns:").spec_bytes() + a.0 + ("=\"").spec_bytes() + xml_escape(a.1) + (
        "\"").spec_bytes()
    }
}

pub open spec fn ns_text(ns: Seq<(Seq<u8>, Seq<u8>)>) -> Seq<u8>
    decreases ns.len(),
{
    if ns.len() == 0 {
        Seq::empty()
    } else {
        ns_text(ns.drop_last()) + ns_attr_text(ns.last())
    }
}

/// The text of one event: a start tag with its attributes (and, when asked
/// for, its namespace bindings), an end tag, or escaped character data.
pub open spec fn piece_text(e: PieceView, with_ns: bool) -> Seq<u8> {
    match e {
        PieceView::Start { name, attrs, ns } => ("<").spec_bytes() + name + (if with_ns {
            ns_text(ns)
        } else {
            Seq::empty()
        }) + attrs_text(attrs) + (">").spec_bytes(),
        PieceView::End { name } => ("</").spec_bytes() + name + (">").spec_bytes(),
        PieceView::Text { content } => xml_escape(content),
    }
}

/// The text of an event sequence; namespace bindings are written only on the
/// first event (the document's root element).
pub open spec fn doc_text(events: Seq<PieceView>) -> Seq<u8>
    decreases events.len(),
{
    if events.len() == 0 {
        Seq::empty()
    } else {
        doc_text(events.drop_last()) + piece_text(events.last(), events.len() == 1)
    }
}

/// Append the text of one attribute.
pub fn push_attr(out: &mut Vec<u8>, a: &Attr)
    ensures
        final(out)@ == old(out)@ + attr_text(a@),
{
    push_lit(out, " ");
    crate::text::push_bytes(out, &a.name);
    push_lit(out, "=\"");
    push_xml_escaped(out, &a.value);
    push_lit(out, "\"");
    proof {
        assert(final(out)@ =~= old(out)@ + attr_text(a@));
    }
}

/// Append one namespace binding as an `xmlns` attribute.
pub fn push_ns_attr(out: &mut Vec<u8>, a: &Attr)
    ensures
        final(out)@ == old(out)@ + ns_attr_text(a@),
{
    if crate::text::eq_lit(&a.name, "xml") || crate::text::eq_lit(&a.name, "xmlns") || (
    a.name.len() == 0 && a.value.len() == 0) {
        proof {
            if a.name@.len() == 0 && a.value@.len() == 0 {
                assert(a.name@ =~= Seq::<u8>::empty());
                assert(a.value@ =~= Seq::<u8>::empty());
            }
            assert(final(out)@ =~= old(out)@ + ns_attr_text(a@));
        }
    } else if a.name.len() == 0 {
        proof {
            assert(a.name@ =~= Seq::<u8>::empty());
        }
        push_lit(out, " xmlns=\"");
        push_xml_escaped(out, &a.value);
        push_lit(out, "\"");
        proof {
            assert(final(out)@ =~= old(out)@ + ns_attr_text(a@));
        }
    } else {
        proof {
            assert(a.name@ != Seq::<u8>::empty()) by {
                assert(a.name@.len() != 0);
            }
        }
        push_lit(out, " xmlns:");
        crate::text::push_bytes(out, &a.name);
        push_lit(out, "=\"");
        push_xml_escaped(out, &a.value);
        push_lit(out, "\"");
        proof {
            assert(final(out)@ =~= old(out)@ + ns_attr_text(a@));
        }
    }
}

/// Append the text of one event.
pub fn push_piece(out: &mut Vec<u8>, e: &XmlPiece, with_ns: bool)
    ensures
        final(out)@ == old(out)@ + piece_text(e@, with_ns),
{
    match e {
        XmlPiece::Start { name, attrs, ns } => {
            push_lit(out, "<");
            crate::text::push_bytes(out, name);
            if with_ns {
                let k: usize = ns.len();
                let mut i: usize = 0;
                while i < k
                    invariant
                        ns@.len() == k,
                        i <= k,
                        out@ =~= old(out)@ + ("<").spec_bytes() + name@ + ns_text(
                            ns.deep_view().take(i as int),
                        ),
                    decreases k - i,
                {
                    push_ns_attr(out, &ns[i]);
                    proof {
                        assert(ns.deep_view().take(i as int + 1).drop_last() =~= ns.deep_view().take(
                            i as int,
                        ));
                        assert(ns.deep_view().take(i as int + 1).last() == ns@[i as int]@);
                        assert(out@ =~= old(out)@ + ("<").spec_bytes() + name@ + ns_text(
                            ns.deep_view().take(i as int + 1),
                        ));
                    }
                    i = i + 1;
                }
                proof {
                    assert(ns.deep_view().take(k as int) =~= ns.deep_view());
                }
            }
            let ghost mid = out@;
            let k: usize = attrs.len();
            let mut i: usize = 0;
            while i < k
                invariant
                    attrs@.len() == k,
                    i <= k,
                    out@ =~= mid + attrs_text(attrs.deep_view().take(i as int)),
                decreases k - i,
            {
                push_attr(out, &attrs[i]);
                proof {
                    assert(attrs.deep_view().take(i as int + 1).drop_last()
                        =~= attrs.deep_view().take(i as int));
                    assert(attrs.deep_view().take(i as int + 1).last() == attrs@[i as int]@);
                    assert(out@ =~= mid + attrs_text(attrs.deep_view().take(i as int + 1)));
                }
                i = i + 1;
            }
            proof {
                assert(attrs.deep_view().take(k as int) =~= attrs.deep_view());
            }
            push_lit(out, ">");
            proof {
                assert(final(out)@ =~= old(out)@ + piece_text(e@, with_ns));
            }
        },
        XmlPiece::End { name } => {
            push_lit(out, "</");
            crate::text::push_bytes(out, name);
            push_lit(out, ">");
            proof {
                assert(final(out)@ =~= old(out)@ + piece_text(e@, with_ns));
            }
        },
        XmlPiece::Text { content } => {
            push_xml_escaped(out, content);
        },
    }
}

/// Serialize a self-contained document's events to text. The first event is
/// the root element and carries the namespace bindings.
pub fn doc_to_text(events: &Vec<XmlPiece>) -> (r: Vec<u8>)
    ensures
        r@ == doc_text(events.deep_view()),
{
    let mut out: Vec<u8> = Vec::new();
    let n: usize = events.len();
    let mut i: usize = 0;
    while i < n
        invariant
            events@.len() == n,
            i <= n,
            out@ =~= doc_text(events.deep_view().take(i as int)),
        decreases n - i,
    {
        push_piece(&mut out, &events[i], i == 0);
        proof {
            assert(events.deep_view().take(i as int + 1).drop_last() =~= events.deep_view().take(
                i as int,
            ));
            assert(events.deep_view().take(i as int + 1).last() == events@[i as int]@);
            assert(out@ =~= doc_text(events.deep_view().take(i as int + 1)));
        }
        i = i + 1;
    }
    proof {
        assert(events.deep_view().take(n as int) =~= events.deep_view());
    }
    out
}

} // verus!
