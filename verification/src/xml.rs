//! XML documents as the runtime's parser builds them, and their text.
//!
//! A document is a tree of elements, held as a list in the order their
//! start tags come: each element has its name (without its namespace
//! prefix), the index of its namespace in the document's list of
//! namespaces (or none), its `xml:lang`, its attributes (last written
//! first, as the runtime links them), the text right after its start tag,
//! its children, and the text after its end tag.
//!
//! The XML itself is read by the `xml-rs` crate, which hands over its
//! events one by one; building the tree from them, and writing a tree back
//! as text, is this module's own and is verified.

use vstd::prelude::*;
use crate::error::Error;
use crate::pool::Pool;
use crate::status::Status;
use crate::text::{push_decimal, spec_decimal, string_push};
use xml::reader::XmlEvent as E;
use vstd::string::StringSliceAdditionalSpecFns;

verus! {

/// The namespace index of an element or attribute in no namespace.
pub const APR_XML_NS_NONE: i32 = -10;

/// Text style: the whole element, with its tags.
pub const APR_XML_X2T_FULL: i32 = 0;
/// Text style: only what is inside the element.
pub const APR_XML_X2T_INNER: i32 = 1;
/// Text style: the element's `xml:lang`, then what is inside it.
pub const APR_XML_X2T_LANG_INNER: i32 = 2;
/// Text style: the whole element, with its namespace declarations.
pub const APR_XML_X2T_FULL_NS_LANG: i32 = 3;

/// An attribute of an element.
pub struct XmlAttrData {
    pub name: String,
    pub value: String,
    pub ns: i32,
}

/// An element of a document, with its place in the tree.
pub struct XmlElemData {
    pub name: String,
    pub ns: i32,
    pub lang: Option<String>,
    pub lang_own: bool,
    pub attrs: Vec<XmlAttrData>,
    pub first_cdata: Vec<String>,
    pub following_cdata: Vec<String>,
    pub children: Vec<usize>,
    pub parent: Option<usize>,
    pub pos: usize,
}

/// An attribute as the model reads it.
#[verifier::ext_equal]
pub struct AttrView {
    pub name: Seq<char>,
    pub value: Seq<char>,
    pub ns: int,
}

/// An element as the model reads it.
#[verifier::ext_equal]
pub struct ElemView {
    pub name: Seq<char>,
    pub ns: int,
    pub lang: Option<Seq<char>>,
    pub lang_own: bool,
    pub attrs: Seq<AttrView>,
    pub first_cdata: Seq<Seq<char>>,
    pub following_cdata: Seq<Seq<char>>,
    pub children: Seq<int>,
    pub parent: Option<int>,
    pub pos: int,
}

/// Texts as the model reads them.
pub open spec fn texts_view(v: Seq<String>) -> Seq<Seq<char>> {
    v.map_values(|s: String| s@)
}

impl View for XmlAttrData {
    type V = AttrView;

    open spec fn view(&self) -> AttrView {
        AttrView { name: self.name@, value: self.value@, ns: self.ns as int }
    }
}

impl View for XmlElemData {
    type V = ElemView;

    open spec fn view(&self) -> ElemView {
        ElemView {
            name: self.name@,
            ns: self.ns as int,
            lang: match self.lang {
                Some(l) => Some(l@),
                None => None,
            },
            lang_own: self.lang_own,
            attrs: self.attrs@.map_values(|a: XmlAttrData| a@),
            first_cdata: texts_view(self.first_cdata@),
            following_cdata: texts_view(self.following_cdata@),
            children: self.children@.map_values(|c: usize| c as int),
            parent: match self.parent {
                Some(p) => Some(p as int),
                None => None,
            },
            pos: self.pos as int,
        }
    }
}

/// Whether a list of elements is a tree: children come after their parent
/// and name it as theirs, at their place among its children; the first
/// element is the root and has no parent, every other one has one.
pub open spec fn tree_ok(e: Seq<ElemView>) -> bool {
    &&& forall|i: int, k: int|
        #![trigger e[i].children[k]]
        0 <= i < e.len() && 0 <= k < e[i].children.len() ==> {
            let c = e[i].children[k];
            &&& i < c < e.len()
            &&& e[c].parent == Some(i)
            &&& e[c].pos == k
        }
    &&& forall|c: int|
        #![trigger e[c].parent]
        0 <= c < e.len() ==> match e[c].parent {
            None => c == 0,
            Some(p) => 0 <= p < c && 0 <= e[c].pos < e[p].children.len() && e[p].children[e[c].pos]
                == c,
        }
}

/// Whether every namespace index of the elements and their attributes is
/// none, or one of the `n` namespaces.
pub open spec fn ns_ok(e: Seq<ElemView>, n: nat) -> bool {
    &&& forall|i: int|
        #![trigger e[i].ns]
        0 <= i < e.len() ==> e[i].ns == APR_XML_NS_NONE || 0 <= e[i].ns < n
    &&& forall|i: int, k: int|
        #![trigger e[i].attrs[k]]
        0 <= i < e.len() && 0 <= k < e[i].attrs.len() ==> e[i].attrs[k].ns == APR_XML_NS_NONE || 0
            <= e[i].attrs[k].ns < n
}

/// A parsed document: its elements, the root first, and its namespaces.
pub struct XmlDoc {
    elems: Vec<XmlElemData>,
    namespaces: Vec<String>,
}

impl XmlDoc {
    /// The elements of the document, the root first.
    pub closed spec fn elems_view(&self) -> Seq<ElemView> {
        self.elems@.map_values(|d: XmlElemData| d@)
    }

    /// The namespaces of the document, by index.
    pub closed spec fn namespaces_view(&self) -> Seq<Seq<char>> {
        texts_view(self.namespaces@)
    }

    #[verifier::type_invariant]
    spec fn well_formed(self) -> bool {
        &&& tree_ok(self.elems@.map_values(|d: XmlElemData| d@))
        &&& ns_ok(self.elems@.map_values(|d: XmlElemData| d@), self.namespaces@.len())
        &&& self.elems@.len() > 0
    }
}

/// An element of a parsed document.
pub struct XmlElem<'a> {
    doc: &'a XmlDoc,
    idx: usize,
}

/// An attribute of an element of a parsed document.
pub struct XmlAttr<'a> {
    doc: &'a XmlDoc,
    elem: usize,
    pos: usize,
}

impl<'a> XmlElem<'a> {
    #[verifier::type_invariant]
    spec fn well_formed(self) -> bool {
        self.idx < self.doc.elems@.len()
    }

    /// The elements of the element's document.
    pub closed spec fn elems(self) -> Seq<ElemView> {
        self.doc.elems_view()
    }

    /// The element's index in its document.
    pub closed spec fn index(self) -> int {
        self.idx as int
    }

    /// The element, as the model reads it.
    pub open spec fn data(self) -> ElemView {
        self.elems()[self.index()]
    }

    /// Whether another handle is to an element of the same document.
    pub closed spec fn same_doc(self, other: XmlElem<'a>) -> bool {
        self.doc == other.doc
    }

    /// The element's name, without its namespace prefix.
    pub fn name(&self) -> (r: &str)
        ensures
            r@ == self.data().name,
    {
        proof {
            use_type_invariant(self);
        }
        self.doc.elems[self.idx].name.as_str()
    }

    /// The element's namespace: none only for the index `-1`, which the
    /// parser never gives; else the empty name.
    pub fn namespace(&self) -> (r: Option<&str>)
        ensures
            self.data().ns == -1 ==> r is None,
            self.data().ns != -1 ==> (r matches Some(n) && n@ == Seq::<char>::empty()),
    {
        proof {
            use_type_invariant(self);
            reveal_strlit("");
        }
        if self.doc.elems[self.idx].ns == -1 {
            None
        } else {
            Some("")
        }
    }

    /// The element's first child, if it has one.
    pub fn first_child(&self) -> (r: Option<XmlElem<'a>>)
        ensures
            self.data().children.len() == 0 ==> r is None,
            self.data().children.len() > 0 ==> (r matches Some(c) && self.same_doc(c) && c.index()
                == self.data().children[0]),
    {
        proof {
            use_type_invariant(self);
            use_type_invariant(self.doc);
        }
        let d = &self.doc.elems[self.idx];
        if d.children.len() == 0 {
            None
        } else {
            let c = d.children[0];
            proof {
                let e = self.doc.elems_view();
                assert(e[self.idx as int].children[0] == c);
            }
            Some(XmlElem { doc: self.doc, idx: c })
        }
    }

    /// The element's next sibling, if it has one.
    pub fn next(&self) -> (r: Option<XmlElem<'a>>)
        ensures
            match self.data().parent {
                None => r is None,
                Some(p) => if self.data().pos + 1 < self.elems()[p].children.len() {
                    r matches Some(n) && self.same_doc(n) && n.index() == self.elems()[p].children[
                        self.data().pos + 1
                    ]
                } else {
                    r is None
                },
            },
    {
        proof {
            use_type_invariant(self);
            use_type_invariant(self.doc);
        }
        let d = &self.doc.elems[self.idx];
        match d.parent {
            None => None,
            Some(p) => {
                proof {
                    let e = self.doc.elems_view();
                    assert(e[self.idx as int].parent == Some(p as int));
                }
                let siblings = &self.doc.elems[p].children;
                let n = siblings.len();
                proof {
                    let e = self.doc.elems_view();
                    assert(e[self.idx as int].pos < e[p as int].children.len());
                    assert(e[p as int].children.len() == n);
                    assert(e[self.idx as int].pos == d.pos);
                }
                if d.pos + 1 < n {
                    let n = siblings[d.pos + 1];
                    proof {
                        let e = self.doc.elems_view();
                        assert(e[p as int].children[d.pos + 1] == n);
                    }
                    Some(XmlElem { doc: self.doc, idx: n })
                } else {
                    None
                }
            },
        }
    }

    /// The element's first attribute, if it has one.
    pub fn first_attr(&self) -> (r: Option<XmlAttr<'a>>)
        ensures
            self.data().attrs.len() == 0 ==> r is None,
            self.data().attrs.len() > 0 ==> (r matches Some(a) && a.data() == self.data().attrs[0]
                && a.owner() == self.index() && a.position() == 0),
    {
        proof {
            use_type_invariant(self);
        }
        if self.doc.elems[self.idx].attrs.len() == 0 {
            None
        } else {
            Some(XmlAttr { doc: self.doc, elem: self.idx, pos: 0 })
        }
    }

    /// The text right after the element's start tag (its first piece),
    /// if there is any.
    pub fn text(&self) -> (r: Option<&str>)
        ensures
            self.data().first_cdata.len() == 0 ==> r is None,
            self.data().first_cdata.len() > 0 ==> (r matches Some(t) && t@
                == self.data().first_cdata[0]),
    {
        proof {
            use_type_invariant(self);
        }
        let d = &self.doc.elems[self.idx];
        if d.first_cdata.len() == 0 {
            None
        } else {
            Some(d.first_cdata[0].as_str())
        }
    }

    /// The element's children, one by one.
    pub fn children(&self) -> (r: XmlElemIter<'a>)
        ensures
            self.data().children.len() == 0 ==> r.current is None,
            self.data().children.len() > 0 ==> (r.current matches Some(c) && self.same_doc(c)
                && c.index() == self.data().children[0]),
    {
        XmlElemIter { current: self.first_child() }
    }

    /// The element's attributes, one by one.
    pub fn attributes(&self) -> (r: XmlAttrIter<'a>)
        ensures
            self.data().attrs.len() == 0 ==> r.current is None,
            self.data().attrs.len() > 0 ==> (r.current matches Some(a) && a.data()
                == self.data().attrs[0] && a.owner() == self.index() && a.position() == 0),
    {
        XmlAttrIter { current: self.first_attr() }
    }
}

impl<'a> XmlAttr<'a> {
    #[verifier::type_invariant]
    spec fn well_formed(self) -> bool {
        &&& self.elem < self.doc.elems@.len()
        &&& self.pos < self.doc.elems@[self.elem as int].attrs@.len()
    }

    /// The index of the element that the attribute belongs to.
    pub closed spec fn owner(self) -> int {
        self.elem as int
    }

    /// The attribute's place among its element's attributes.
    pub closed spec fn position(self) -> int {
        self.pos as int
    }

    /// The attributes of the attribute's element.
    pub closed spec fn siblings(self) -> Seq<AttrView> {
        self.doc.elems_view()[self.elem as int].attrs
    }

    /// The attribute, as the model reads it.
    pub open spec fn data(self) -> AttrView {
        self.siblings()[self.position()]
    }

    /// The attribute's name, without its namespace prefix.
    pub fn name(&self) -> (r: &str)
        ensures
            r@ == self.data().name,
    {
        proof {
            use_type_invariant(self);
        }
        self.doc.elems[self.elem].attrs[self.pos].name.as_str()
    }

    /// The attribute's value.
    pub fn value(&self) -> (r: &str)
        ensures
            r@ == self.data().value,
    {
        proof {
            use_type_invariant(self);
        }
        self.doc.elems[self.elem].attrs[self.pos].value.as_str()
    }

    /// The element's next attribute, if there is one.
    pub fn next(&self) -> (r: Option<XmlAttr<'a>>)
        ensures
            self.position() + 1 < self.siblings().len() ==> (r matches Some(a) && a.owner()
                == self.owner() && a.position() == self.position() + 1 && a.siblings()
                == self.siblings()),
            self.position() + 1 >= self.siblings().len() ==> r is None,
    {
        proof {
            use_type_invariant(self);
        }
        let n = self.doc.elems[self.elem].attrs.len();
        if self.pos + 1 < n {
            Some(XmlAttr { doc: self.doc, elem: self.elem, pos: self.pos + 1 })
        } else {
            None
        }
    }
}

/// The children of an element, one by one.
pub struct XmlElemIter<'a> {
    pub current: Option<XmlElem<'a>>,
}

impl<'a> XmlElemIter<'a> {
    /// The next child, if any is left.
    pub fn next(&mut self) -> (r: Option<XmlElem<'a>>)
        ensures
            r == old(self).current,
            match r {
                None => final(self).current is None,
                Some(c) => match c.data().parent {
                    None => final(self).current is None,
                    Some(p) => if c.data().pos + 1 < c.elems()[p].children.len() {
                        final(self).current matches Some(n) && c.same_doc(n) && n.index()
                            == c.elems()[p].children[c.data().pos + 1]
                    } else {
                        final(self).current is None
                    },
                },
            },
    {
        match self.current.take() {
            None => None,
            Some(c) => {
                self.current = c.next();
                Some(c)
            },
        }
    }
}

/// The attributes of an element, one by one.
pub struct XmlAttrIter<'a> {
    pub current: Option<XmlAttr<'a>>,
}

impl<'a> XmlAttrIter<'a> {
    /// The next attribute, if any is left.
    pub fn next(&mut self) -> (r: Option<XmlAttr<'a>>)
        ensures
            r == old(self).current,
            match r {
                None => final(self).current is None,
                Some(a) => if a.position() + 1 < a.siblings().len() {
                    final(self).current matches Some(n) && n.owner() == a.owner() && n.position()
                        == a.position() + 1 && n.siblings() == a.siblings()
                } else {
                    final(self).current is None
                },
            },
    {
        match self.current.take() {
            None => None,
            Some(a) => {
                self.current = a.next();
                Some(a)
            },
        }
    }
}

/// A character as the runtime quotes it in an attribute value.
pub open spec fn quote_char(c: char) -> Seq<char> {
    if c == '&' {
        seq!['&', 'a', 'm', 'p', ';']
    } else if c == '<' {
        seq!['&', 'l', 't', ';']
    } else if c == '>' {
        seq!['&', 'g', 't', ';']
    } else if c == '"' {
        seq!['&', 'q', 'u', 'o', 't', ';']
    } else {
        seq![c]
    }
}

/// A text with `&`, `<`, `>` and `"` written as entities.
pub open spec fn quote_text(s: Seq<char>) -> Seq<char>
    decreases s.len(),
{
    if s.len() == 0 {
        seq![]
    } else {
        quote_text(s.drop_last()) + quote_char(s.last())
    }
}

/// Pieces of text written one after another.
pub open spec fn texts_concat(v: Seq<Seq<char>>) -> Seq<char>
    decreases v.len(),
{
    if v.len() == 0 {
        seq![]
    } else {
        texts_concat(v.drop_last()) + v.last()
    }
}

/// The prefix that names a namespace in the text: `ns` and its index and a
/// colon; nothing for no namespace.
pub open spec fn ns_part(ns: int) -> Seq<char> {
    if ns == APR_XML_NS_NONE {
        seq![]
    } else {
        seq!['n', 's'] + spec_decimal(ns as nat) + seq![':']
    }
}

/// An attribute as the text has it: ` name="value"`, the value as it is.
pub open spec fn attr_text(a: AttrView) -> Seq<char> {
    seq![' '] + ns_part(a.ns) + a.name + seq!['=', '"'] + a.value + seq!['"']
}

/// Attributes written one after another.
pub open spec fn attrs_text(a: Seq<AttrView>) -> Seq<char>
    decreases a.len(),
{
    if a.len() == 0 {
        seq![]
    } else {
        attrs_text(a.drop_last()) + attr_text(a.last())
    }
}

/// The `xml:lang` that a start tag shows: the root's, and a child's own.
pub open spec fn lang_text(e: ElemView) -> Seq<char> {
    match e.lang {
        Some(l) => if e.parent is None || e.lang_own {
            seq![' ', 'x', 'm', 'l', ':', 'l', 'a', 'n', 'g', '=', '"'] + l + seq!['"']
        } else {
            seq![]
        },
        None => seq![],
    }
}

/// A start tag without its closing `>`.
pub open spec fn open_tag(e: ElemView) -> Seq<char> {
    seq!['<'] + ns_part(e.ns) + e.name + attrs_text(e.attrs) + lang_text(e)
}

/// Whether an element has neither children nor text after its start tag.
pub open spec fn is_empty_elem(e: ElemView) -> bool {
    e.children.len() == 0 && e.first_cdata.len() == 0
}

/// An element written whole: `<name attrs/>` when empty, else its start
/// tag, what is inside it, and its end tag.
pub open spec fn write_elem(es: Seq<ElemView>, i: int) -> Seq<char>
    decreases es.len() - i, 2int, 0int,
{
    if 0 <= i < es.len() {
        let e = es[i];
        if is_empty_elem(e) {
            open_tag(e) + seq!['/', '>']
        } else {
            open_tag(e) + seq!['>'] + write_inner(es, i) + seq!['<', '/'] + ns_part(e.ns) + e.name
                + seq!['>']
        }
    } else {
        seq![]
    }
}

/// What is inside an element: the text after its start tag, then each
/// child written whole, with the text after it.
pub open spec fn write_inner(es: Seq<ElemView>, i: int) -> Seq<char>
    decreases es.len() - i, 1int, 0int,
{
    if 0 <= i < es.len() {
        texts_concat(es[i].first_cdata) + children_upto(es, i, es[i].children.len() as int)
    } else {
        seq![]
    }
}

/// The first `k` children of an element, each written whole with the text
/// after it.
pub open spec fn children_upto(es: Seq<ElemView>, i: int, k: int) -> Seq<char>
    decreases es.len() - i, 0int, k,
{
    if 0 <= i < es.len() && 0 < k <= es[i].children.len() {
        let c = es[i].children[k - 1];
        children_upto(es, i, k - 1) + if i < c < es.len() {
            write_elem(es, c) + texts_concat(es[c].following_cdata)
        } else {
            seq![]
        }
    } else {
        seq![]
    }
}

/// The text of a document in a style: the whole root for
/// [`APR_XML_X2T_FULL`]; the root's `xml:lang` alone for
/// [`APR_XML_X2T_LANG_INNER`] (what follows it stands after a NUL); what is
/// inside the root for any other style.
pub open spec fn doc_text(es: Seq<ElemView>, style: i32) -> Seq<char> {
    if style == APR_XML_X2T_FULL {
        write_elem(es, 0)
    } else if style == APR_XML_X2T_LANG_INNER {
        match es[0].lang {
            Some(l) => l,
            None => seq![],
        }
    } else {
        write_inner(es, 0)
    }
}

/// Appends a string.
fn push_text(out: &mut String, s: &str)
    ensures
        final(out)@ == old(out)@ + s@,
{
    out.append(s);
}

/// Appends pieces of text one after another.
fn push_texts(out: &mut String, v: &Vec<String>)
    ensures
        final(out)@ == old(out)@ + texts_concat(texts_view(v@)),
{
    let ghost start = out@;
    let n = v.len();
    let mut j: usize = 0;
    while j < n
        invariant
            n == v@.len(),
            j <= n,
            out@ == start + texts_concat(texts_view(v@).take(j as int)),
        decreases n - j,
    {
        push_text(out, v[j].as_str());
        proof {
            let t = texts_view(v@).take(j + 1);
            assert(t.drop_last() =~= texts_view(v@).take(j as int));
        }
        assert(out@ =~= start + texts_concat(texts_view(v@).take(j + 1)));
        j = j + 1;
    }
    assert(texts_view(v@).take(n as int) =~= texts_view(v@));
}

/// Appends the prefix of a namespace.
fn push_ns(out: &mut String, ns: i32)
    requires
        ns == APR_XML_NS_NONE || ns >= 0,
    ensures
        final(out)@ == old(out)@ + ns_part(ns as int),
{
    if ns != APR_XML_NS_NONE {
        let ghost start = out@;
        string_push(out, 'n');
        string_push(out, 's');
        push_decimal(out, ns as u64);
        string_push(out, ':');
        assert(out@ =~= start + ns_part(ns as int));
    }
}

/// Appends attributes one after another.
fn push_attrs(out: &mut String, attrs: &Vec<XmlAttrData>)
    requires
        forall|k: int|
            0 <= k < attrs@.len() ==> (#[trigger] attrs@[k]).ns == APR_XML_NS_NONE || attrs@[k].ns
                >= 0,
    ensures
        final(out)@ == old(out)@ + attrs_text(attrs@.map_values(|a: XmlAttrData| a@)),
{
    let ghost av = attrs@.map_values(|a: XmlAttrData| a@);
    let ghost before = out@;
    let n = attrs.len();
    let mut k: usize = 0;
    while k < n
        invariant
            n == attrs@.len(),
            k <= n,
            av == attrs@.map_values(|a: XmlAttrData| a@),
            forall|j: int|
                0 <= j < attrs@.len() ==> (#[trigger] attrs@[j]).ns == APR_XML_NS_NONE
                    || attrs@[j].ns >= 0,
            out@ == before + attrs_text(av.take(k as int)),
        decreases n - k,
    {
        let a = &attrs[k];
        assert(av[k as int] == a@);
        string_push(out, ' ');
        push_ns(out, a.ns);
        push_text(out, a.name.as_str());
        string_push(out, '=');
        string_push(out, '"');
        push_text(out, a.value.as_str());
        string_push(out, '"');
        proof {
            let t = av.take(k + 1);
            assert(t.drop_last() =~= av.take(k as int));
        }
        assert(out@ =~= before + attrs_text(av.take(k + 1)));
        k = k + 1;
    }
    assert(av.take(n as int) =~= av);
}

/// Appends the `xml:lang` that a start tag shows.
fn push_lang(out: &mut String, d: &XmlElemData)
    ensures
        final(out)@ == old(out)@ + lang_text(d@),
{
    let ghost start = out@;
    match &d.lang {
        Some(l) => {
            if d.parent.is_none() || d.lang_own {
                string_push(out, ' ');
                string_push(out, 'x');
                string_push(out, 'm');
                string_push(out, 'l');
                string_push(out, ':');
                string_push(out, 'l');
                string_push(out, 'a');
                string_push(out, 'n');
                string_push(out, 'g');
                string_push(out, '=');
                string_push(out, '"');
                push_text(out, l.as_str());
                string_push(out, '"');
            }
        },
        None => {},
    }
    assert(out@ =~= start + lang_text(d@));
}

impl XmlDoc {
    /// Appends a start tag without its closing `>`.
    fn push_open_tag(&self, out: &mut String, i: usize)
        requires
            i < self.elems_view().len(),
            ns_ok(self.elems_view(), self.namespaces@.len()),
        ensures
            final(out)@ == old(out)@ + open_tag(self.elems_view()[i as int]),
    {
        let ghost start = out@;
        let ghost ev = self.elems_view()[i as int];
        let d = &self.elems[i];
        assert(ev == d@);
        string_push(out, '<');
        assert(self.elems_view()[i as int].ns == d.ns);
        push_ns(out, d.ns);
        push_text(out, d.name.as_str());
        assert forall|k: int| 0 <= k < d.attrs@.len() implies (#[trigger] d.attrs@[k]).ns
            == APR_XML_NS_NONE || d.attrs@[k].ns >= 0 by {
            assert(self.elems_view()[i as int].attrs[k] == d.attrs@[k]@);
        }
        push_attrs(out, &d.attrs);
        push_lang(out, d);
        assert(out@ =~= start + open_tag(ev));
    }
}

impl XmlDoc {
    /// Appends an element written whole.
    #[verifier::spinoff_prover]
    #[verifier::rlimit(30)]
    fn push_elem(&self, out: &mut String, i: usize)
        requires
            i < self.elems_view().len(),
            tree_ok(self.elems_view()),
            ns_ok(self.elems_view(), self.namespaces@.len()),
        ensures
            final(out)@ == old(out)@ + write_elem(self.elems_view(), i as int),
        decreases self.elems_view().len() - i, 2int, 0int,
    {
        let ghost start = out@;
        let ghost es = self.elems_view();
        let d = &self.elems[i];
        assert(es[i as int] == d@);
        self.push_open_tag(out, i);
        if d.children.len() == 0 && d.first_cdata.len() == 0 {
            string_push(out, '/');
            string_push(out, '>');
        } else {
            string_push(out, '>');
            self.push_inner(out, i);
            string_push(out, '<');
            string_push(out, '/');
            assert(es[i as int].ns == d.ns);
            push_ns(out, d.ns);
            push_text(out, d.name.as_str());
            string_push(out, '>');
        }
        assert(out@ =~= start + write_elem(es, i as int));
    }

    /// Appends what is inside an element.
    #[verifier::spinoff_prover]
    fn push_inner(&self, out: &mut String, i: usize)
        requires
            i < self.elems_view().len(),
            tree_ok(self.elems_view()),
            ns_ok(self.elems_view(), self.namespaces@.len()),
        ensures
            final(out)@ == old(out)@ + write_inner(self.elems_view(), i as int),
        decreases self.elems_view().len() - i, 1int, 0int,
    {
        let ghost start = out@;
        let ghost es = self.elems_view();
        let d = &self.elems[i];
        assert(es[i as int] == d@);
        push_texts(out, &d.first_cdata);
        let ghost mid = out@;
        let n = d.children.len();
        let mut k: usize = 0;
        while k < n
            invariant
                n == d.children@.len(),
                k <= n,
                i < es.len(),
                es == self.elems_view(),
                es[i as int] == d@,
                tree_ok(es),
                ns_ok(es, self.namespaces@.len()),
                out@ == mid + children_upto(es, i as int, k as int),
            decreases n - k,
        {
            let c = d.children[k];
            assert(es[i as int].children[k as int] == c as int);
            assert(i < c < es.len());
            self.push_elem(out, c);
            assert(es[c as int] == self.elems@[c as int]@);
            push_texts(out, &self.elems[c].following_cdata);
            assert(out@ =~= mid + children_upto(es, i as int, k + 1));
            k = k + 1;
        }
        assert(out@ =~= start + write_inner(es, i as int));
    }
}

impl XmlDoc {
    /// The root element.
    pub fn root(&self) -> (r: Option<XmlElem<'_>>)
        ensures
            r matches Some(e) && e.index() == 0 && e.elems() == self.elems_view(),
    {
        proof {
            use_type_invariant(self);
        }
        Some(XmlElem { doc: self, idx: 0 })
    }

    /// The document as text, in a style (see [`doc_text`]); the style that
    /// adds namespace declarations is not taken, as the runtime would read
    /// a list of namespaces that is not handed to it.
    pub fn to_string(&self, pool: &Pool, style: i32) -> (r: Result<String, Error>)
        requires
            style != APR_XML_X2T_FULL_NS_LANG,
        ensures
            r matches Ok(s) && s@ == doc_text(self.elems_view(), style),
    {
        proof {
            use_type_invariant(self);
        }
        let mut out = String::new();
        if style == APR_XML_X2T_FULL {
            self.push_elem(&mut out, 0);
        } else if style == APR_XML_X2T_LANG_INNER {
            match &self.elems[0].lang {
                Some(l) => push_text(&mut out, l.as_str()),
                None => {},
            }
            assert(self.elems_view()[0] == self.elems@[0]@);
        } else {
            self.push_inner(&mut out, 0);
        }
        assert(out@ =~= doc_text(self.elems_view(), style));
        Ok(out)
    }
}

// ---------------------------------------------------------------------------
// Building a document from the reader's events
// ---------------------------------------------------------------------------

/// A name as the reader gives it: its prefix, its local part, and the URI
/// of its namespace.
pub struct XmlName {
    pub prefix: Option<String>,
    pub local: String,
    pub uri: Option<String>,
}

/// An attribute as the reader gives it.
pub struct XmlRawAttr {
    pub name: XmlName,
    pub value: String,
}

/// An event of the reader.
pub enum XmlToken {
    /// A start tag, with its attributes in the order written and the
    /// namespaces in scope at it (prefix and URI).
    Start(XmlName, Vec<XmlRawAttr>, Vec<(String, String)>),
    /// An end tag.
    End,
    /// Text.
    Text(String),
    /// Anything else: the declaration, a comment, an instruction.
    Other,
    /// The end of the document.
    Done,
    /// The document is not well-formed, with the reader's message.
    Failed(String),
}

/// A name as the model reads it.
pub struct NameView {
    pub prefix: Option<Seq<char>>,
    pub local: Seq<char>,
    pub uri: Option<Seq<char>>,
}

/// An attribute of a start tag as the model reads it.
pub struct RawAttrView {
    pub name: NameView,
    pub value: Seq<char>,
}

/// An event as the model reads it.
pub enum TokenView {
    Start(NameView, Seq<RawAttrView>, Seq<(Seq<char>, Seq<char>)>),
    End,
    Text(Seq<char>),
    Other,
    Done,
    Failed(Seq<char>),
}

/// An optional string as the model reads it.
pub open spec fn opt_view(s: Option<String>) -> Option<Seq<char>> {
    match s {
        Some(x) => Some(x@),
        None => None,
    }
}

impl View for XmlName {
    type V = NameView;

    open spec fn view(&self) -> NameView {
        NameView { prefix: opt_view(self.prefix), local: self.local@, uri: opt_view(self.uri) }
    }
}

impl View for XmlRawAttr {
    type V = RawAttrView;

    open spec fn view(&self) -> RawAttrView {
        RawAttrView { name: self.name@, value: self.value@ }
    }
}

impl View for XmlToken {
    type V = TokenView;

    open spec fn view(&self) -> TokenView {
        match self {
            XmlToken::Start(n, a, sc) => TokenView::Start(
                n@,
                a@.map_values(|x: XmlRawAttr| x@),
                sc@.map_values(|x: (String, String)| (x.0@, x.1@)),
            ),
            XmlToken::End => TokenView::End,
            XmlToken::Text(t) => TokenView::Text(t@),
            XmlToken::Other => TokenView::Other,
            XmlToken::Done => TokenView::Done,
            XmlToken::Failed(m) => TokenView::Failed(m@),
        }
    }
}

/// The state of building a document: the elements so far, the open ones
/// (innermost last), the namespaces met, and whether the document failed
/// or ended.
#[verifier::ext_equal]
pub struct BuildView {
    pub elems: Seq<ElemView>,
    pub stack: Seq<int>,
    pub namespaces: Seq<Seq<char>>,
    pub failed: bool,
    pub done: bool,
}

/// Whether a prefix is reserved: it begins with `xml`, in any case.
pub open spec fn reserved(p: Seq<char>) -> bool {
    &&& p.len() >= 3
    &&& (p[0] == 'x' || p[0] == 'X')
    &&& (p[1] == 'm' || p[1] == 'M')
    &&& (p[2] == 'l' || p[2] == 'L')
}

/// The index of a namespace in the list, or the list's length.
pub open spec fn ns_find(list: Seq<Seq<char>>, uri: Seq<char>) -> int
    decreases list.len(),
{
    if list.len() == 0 {
        0
    } else if ns_find(list.drop_last(), uri) < list.len() - 1 {
        ns_find(list.drop_last(), uri)
    } else if list.last() == uri {
        list.len() - 1
    } else {
        list.len() as int
    }
}

/// The list with a namespace added when it is not in it yet.
pub open spec fn ns_add(list: Seq<Seq<char>>, uri: Seq<char>) -> Seq<Seq<char>> {
    if ns_find(list, uri) < list.len() {
        list
    } else {
        list.push(uri)
    }
}

/// A name with its prefix, as written.
pub open spec fn qualified(n: NameView) -> Seq<char> {
    match n.prefix {
        Some(p) => p + seq![':'] + n.local,
        None => n.local,
    }
}

/// A name resolved against the namespaces met: a reserved prefix keeps
/// the whole name in no namespace, no namespace stays none, and a
/// namespace is looked up (and added when new).
pub struct Resolved {
    pub name: Seq<char>,
    pub ns: int,
    pub namespaces: Seq<Seq<char>>,
}

/// Resolves a name.
pub open spec fn resolve(list: Seq<Seq<char>>, n: NameView) -> Resolved {
    if n.prefix is Some && reserved(n.prefix->0) {
        Resolved { name: qualified(n), ns: APR_XML_NS_NONE as int, namespaces: list }
    } else {
        match n.uri {
            None => Resolved { name: n.local, ns: APR_XML_NS_NONE as int, namespaces: list },
            Some(u) => Resolved { name: n.local, ns: ns_find(list, u), namespaces: ns_add(list, u) },
        }
    }
}

/// Whether an attribute is `xml:lang`.
pub open spec fn is_xml_lang(n: NameView) -> bool {
    n.prefix == Some(seq!['x', 'm', 'l']) && n.local == seq!['l', 'a', 'n', 'g']
}

/// The attributes of a start tag, resolved.
#[verifier::ext_equal]
pub struct AttrsOut {
    pub attrs: Seq<AttrView>,
    pub lang: Option<Seq<char>>,
    pub namespaces: Seq<Seq<char>>,
}

/// The attributes of a start tag as the runtime links them: the last
/// written first, `xml:lang` taken out as the element's language (quoted;
/// the first one written counts), the others resolved.
pub open spec fn attrs_resolve(list: Seq<Seq<char>>, raw: Seq<RawAttrView>) -> AttrsOut
    decreases raw.len(),
{
    if raw.len() == 0 {
        AttrsOut { attrs: seq![], lang: None, namespaces: list }
    } else {
        let a = raw.last();
        if is_xml_lang(a.name) {
            let r = attrs_resolve(list, raw.drop_last());
            AttrsOut {
                attrs: r.attrs,
                lang: if r.lang is Some {
                    r.lang
                } else {
                    Some(quote_text(a.value))
                },
                namespaces: r.namespaces,
            }
        } else {
            let n = resolve(list, a.name);
            let r = attrs_resolve(n.namespaces, raw.drop_last());
            AttrsOut {
                attrs: seq![AttrView { name: n.name, value: a.value, ns: n.ns }] + r.attrs,
                lang: r.lang,
                namespaces: r.namespaces,
            }
        }
    }
}

/// The state of a failed build.
pub open spec fn fail(s: BuildView) -> BuildView {
    BuildView { failed: true, ..s }
}

/// Whether a namespace in scope is one that a document declares: not the
/// predefined `xml` and `xmlns` prefixes, and not the empty URI.
pub open spec fn declared(p: Seq<char>, u: Seq<char>) -> bool {
    p != seq!['x', 'm', 'l'] && p != seq!['x', 'm', 'l', 'n', 's'] && u.len() > 0
}

/// The namespaces met so far, with those in scope at a start tag added
/// when new (as the runtime adds each namespace when it is declared).
pub open spec fn declare_scope(list: Seq<Seq<char>>, scope: Seq<(Seq<char>, Seq<char>)>) -> Seq<
    Seq<char>,
>
    decreases scope.len(),
{
    if scope.len() == 0 {
        list
    } else {
        let l = declare_scope(list, scope.drop_last());
        let (p, u) = scope.last();
        if declared(p, u) {
            ns_add(l, u)
        } else {
            l
        }
    }
}

/// The most namespaces a document may hold, as their indices are C
/// integers.
pub open spec fn ns_limit() -> int {
    0x7fff_ffff
}

/// A start tag: the element is added as the last child of the innermost
/// open element (or as the root), and opened. A second root fails, and so
/// does a tag that could bring the namespaces past their limit.
pub open spec fn start_step(
    s: BuildView,
    n: NameView,
    raw: Seq<RawAttrView>,
    scope: Seq<(Seq<char>, Seq<char>)>,
) -> BuildView {
    if s.stack.len() == 0 && s.elems.len() > 0 {
        fail(s)
    } else if s.namespaces.len() + scope.len() + raw.len() + 1 > ns_limit() {
        fail(s)
    } else {
        let rn = resolve(declare_scope(s.namespaces, scope), n);
        let ar = attrs_resolve(rn.namespaces, raw);
        let idx = s.elems.len() as int;
        let parent: Option<int> = if s.stack.len() == 0 {
            None
        } else {
            Some(s.stack.last())
        };
        let lang = match ar.lang {
            Some(l) => Some(l),
            None => match parent {
                Some(p) => s.elems[p].lang,
                None => None,
            },
        };
        let pos = match parent {
            Some(p) => s.elems[p].children.len() as int,
            None => 0,
        };
        let e = ElemView {
            name: rn.name,
            ns: rn.ns,
            lang,
            lang_own: ar.lang is Some,
            attrs: ar.attrs,
            first_cdata: seq![],
            following_cdata: seq![],
            children: seq![],
            parent,
            pos,
        };
        let elems1 = match parent {
            Some(p) => s.elems.update(p, ElemView { children: s.elems[p].children.push(idx), ..s.elems[p] }),
            None => s.elems,
        };
        BuildView { elems: elems1.push(e), stack: s.stack.push(idx), namespaces: ar.namespaces, ..s }
    }
}

/// An end tag closes the innermost open element.
pub open spec fn end_step(s: BuildView) -> BuildView {
    if s.stack.len() == 0 {
        fail(s)
    } else {
        BuildView { stack: s.stack.drop_last(), ..s }
    }
}

/// Text goes after the start tag of the innermost open element when it
/// has no children yet, else after its last child.
pub open spec fn text_step(s: BuildView, t: Seq<char>) -> BuildView {
    if s.stack.len() == 0 {
        s
    } else {
        let top = s.stack.last();
        let e = s.elems[top];
        if e.children.len() == 0 {
            BuildView {
                elems: s.elems.update(top, ElemView { first_cdata: e.first_cdata.push(t), ..e }),
                ..s
            }
        } else {
            let c = e.children.last();
            BuildView {
                elems: s.elems.update(
                    c,
                    ElemView { following_cdata: s.elems[c].following_cdata.push(t), ..s.elems[c] },
                ),
                ..s
            }
        }
    }
}

/// One event taken into the state; after a failure or the end, nothing
/// more is taken.
pub open spec fn step(s: BuildView, t: TokenView) -> BuildView {
    if s.failed || s.done {
        s
    } else {
        match t {
            TokenView::Start(n, raw, scope) => start_step(s, n, raw, scope),
            TokenView::End => end_step(s),
            TokenView::Text(x) => text_step(s, x),
            TokenView::Other => s,
            TokenView::Done => BuildView { done: true, ..s },
            TokenView::Failed(_) => fail(s),
        }
    }
}

/// The state after a run of events, from nothing.
pub open spec fn build(tokens: Seq<TokenView>) -> BuildView
    decreases tokens.len(),
{
    if tokens.len() == 0 {
        BuildView { elems: seq![], stack: seq![], namespaces: seq![], failed: false, done: false }
    } else {
        step(build(tokens.drop_last()), tokens.last())
    }
}

/// Whether a document's elements and namespaces are what some run of
/// events builds.
pub open spec fn is_built(elems: Seq<ElemView>, namespaces: Seq<Seq<char>>) -> bool {
    exists|t: Seq<TokenView>|
        build_ok(#[trigger] build(t)) && build(t).elems == elems && build(t).namespaces
            == namespaces
}

/// Whether a build gives a document: it ended, did not fail, closed every
/// element, and has a root.
pub open spec fn build_ok(b: BuildView) -> bool {
    b.done && !b.failed && b.stack.len() == 0 && b.elems.len() > 0
}

/// Whether a build state is sound: its elements form a tree, their
/// namespaces are in the list, and the open elements exist.
pub open spec fn state_ok(s: BuildView) -> bool {
    &&& tree_ok(s.elems)
    &&& ns_ok(s.elems, s.namespaces.len())
    &&& forall|k: int| 0 <= k < s.stack.len() ==> 0 <= #[trigger] s.stack[k] < s.elems.len()
}

/// A namespace's index is in the list, where it is found.
proof fn lemma_ns_find(list: Seq<Seq<char>>, uri: Seq<char>)
    ensures
        0 <= ns_find(list, uri) <= list.len(),
        ns_find(list, uri) < list.len() ==> list[ns_find(list, uri)] == uri,
        ns_find(ns_add(list, uri), uri) == ns_find(list, uri),
        ns_find(list, uri) < ns_add(list, uri).len(),
        ns_add(list, uri).len() >= list.len(),
        ns_add(list, uri).len() <= list.len() + 1,
    decreases list.len(),
{
    if list.len() > 0 {
        lemma_ns_find(list.drop_last(), uri);
    }
    if ns_find(list, uri) >= list.len() {
        let l2 = list.push(uri);
        assert(l2.drop_last() =~= list);
    }
}

/// A resolved name is in no namespace or in one of the list, which only
/// grows.
proof fn lemma_resolve(list: Seq<Seq<char>>, n: NameView)
    ensures
        resolve(list, n).namespaces.len() >= list.len(),
        resolve(list, n).namespaces.len() <= list.len() + 1,
        resolve(list, n).ns == APR_XML_NS_NONE || 0 <= resolve(list, n).ns < resolve(
            list,
            n,
        ).namespaces.len(),
{
    if let Some(u) = n.uri {
        lemma_ns_find(list, u);
    }
}

/// Resolved attributes are in no namespace or in one of the list, which
/// only grows.
proof fn lemma_attrs_resolve(list: Seq<Seq<char>>, raw: Seq<RawAttrView>)
    ensures
        attrs_resolve(list, raw).namespaces.len() >= list.len(),
        attrs_resolve(list, raw).namespaces.len() <= list.len() + raw.len(),
        forall|k: int|
            0 <= k < attrs_resolve(list, raw).attrs.len() ==> (#[trigger] attrs_resolve(
                list,
                raw,
            ).attrs[k]).ns == APR_XML_NS_NONE || 0 <= attrs_resolve(list, raw).attrs[k].ns
                < attrs_resolve(list, raw).namespaces.len(),
    decreases raw.len(),
{
    if raw.len() > 0 {
        let a = raw.last();
        if is_xml_lang(a.name) {
            lemma_attrs_resolve(list, raw.drop_last());
        } else {
            let n = resolve(list, a.name);
            lemma_resolve(list, a.name);
            lemma_attrs_resolve(n.namespaces, raw.drop_last());
            let r = attrs_resolve(n.namespaces, raw.drop_last());
            let out = attrs_resolve(list, raw);
            assert forall|k: int| 0 <= k < out.attrs.len() implies (#[trigger] out.attrs[k]).ns
                == APR_XML_NS_NONE || 0 <= out.attrs[k].ns < out.namespaces.len() by {
                if k > 0 {
                    assert(out.attrs[k] == r.attrs[k - 1]);
                }
            }
        }
    }
}

/// Declaring the namespaces in scope only grows the list, by at most one
/// for each.
proof fn lemma_declare_scope(list: Seq<Seq<char>>, scope: Seq<(Seq<char>, Seq<char>)>)
    ensures
        declare_scope(list, scope).len() >= list.len(),
        declare_scope(list, scope).len() <= list.len() + scope.len(),
    decreases scope.len(),
{
    if scope.len() > 0 {
        lemma_declare_scope(list, scope.drop_last());
        let l = declare_scope(list, scope.drop_last());
        lemma_ns_find(l, scope.last().1);
    }
}

/// Every event keeps a build state sound.
pub proof fn lemma_step_ok(s: BuildView, t: TokenView)
    requires
        state_ok(s),
    ensures
        state_ok(step(s, t)),
{
    if !(s.failed || s.done) {
        match t {
            TokenView::Start(n, raw, scope) => lemma_start_ok(s, n, raw, scope),
            TokenView::Text(x) => lemma_text_ok(s, x),
            _ => {},
        }
    }
}

/// A start tag keeps a build state sound.
proof fn lemma_start_ok(
    s: BuildView,
    n: NameView,
    raw: Seq<RawAttrView>,
    scope: Seq<(Seq<char>, Seq<char>)>,
)
    requires
        state_ok(s),
    ensures
        state_ok(start_step(s, n, raw, scope)),
{
    if !(s.stack.len() == 0 && s.elems.len() > 0) && !(s.namespaces.len() + scope.len()
        + raw.len() + 1 > ns_limit()) {
        let l0 = declare_scope(s.namespaces, scope);
        lemma_declare_scope(s.namespaces, scope);
        let rn = resolve(l0, n);
        lemma_resolve(l0, n);
        let ar = attrs_resolve(rn.namespaces, raw);
        lemma_attrs_resolve(rn.namespaces, raw);
        let t = start_step(s, n, raw, scope);
        let idx = s.elems.len() as int;
        let e = t.elems[idx];
        assert(t.elems.len() == idx + 1);
        assert forall|i: int, k: int|
            0 <= i < t.elems.len() && 0 <= k < t.elems[i].children.len() implies {
            let c = #[trigger] t.elems[i].children[k];
            &&& i < c < t.elems.len()
            &&& t.elems[c].parent == Some(i)
            &&& t.elems[c].pos == k
        } by {
            if i < idx {
                if s.stack.len() > 0 && i == s.stack.last() && k == s.elems[i].children.len() {
                } else {
                    assert(t.elems[i].children[k] == s.elems[i].children[k]);
                    let c = s.elems[i].children[k];
                    assert(t.elems[c].parent == s.elems[c].parent);
                }
            }
        }
        assert forall|c: int| 0 <= c < t.elems.len() implies match #[trigger] t.elems[c].parent {
            None => c == 0,
            Some(p) => 0 <= p < c && 0 <= t.elems[c].pos < t.elems[p].children.len()
                && t.elems[p].children[t.elems[c].pos] == c,
        } by {
            if c < idx {
                match s.elems[c].parent {
                    None => {},
                    Some(p) => {
                        assert(s.elems[p].children[s.elems[c].pos] == c);
                        assert(t.elems[p].children[s.elems[c].pos] == c);
                    },
                }
            }
        }
        assert forall|i: int| 0 <= i < t.elems.len() implies #[trigger] t.elems[i].ns
            == APR_XML_NS_NONE || 0 <= t.elems[i].ns < t.namespaces.len() by {
            if i < idx {
                assert(t.elems[i].ns == s.elems[i].ns);
            }
        }
        assert forall|i: int, k: int|
            0 <= i < t.elems.len() && 0 <= k < t.elems[i].attrs.len() implies #[trigger] t.elems[
            i].attrs[k].ns == APR_XML_NS_NONE || 0 <= t.elems[i].attrs[k].ns < t.namespaces.len() by {
            if i < idx {
                assert(t.elems[i].attrs[k] == s.elems[i].attrs[k]);
            }
        }
    }
}

/// Text keeps a build state sound.
proof fn lemma_text_ok(s: BuildView, x: Seq<char>)
    requires
        state_ok(s),
    ensures
        state_ok(text_step(s, x)),
{
    if s.stack.len() > 0 {
        let t = text_step(s, x);
        assert(s.stack[s.stack.len() - 1] == s.stack.last());
        assert forall|i: int| 0 <= i < s.elems.len() implies ({
            &&& (#[trigger] t.elems[i]).children == s.elems[i].children
            &&& t.elems[i].parent == s.elems[i].parent
            &&& t.elems[i].pos == s.elems[i].pos
            &&& t.elems[i].ns == s.elems[i].ns
            &&& t.elems[i].attrs == s.elems[i].attrs
        }) by {}
        assert(t.elems.len() == s.elems.len());
    }
}

/// The first index found by scanning is the index of a namespace.
proof fn lemma_ns_find_first(list: Seq<Seq<char>>, uri: Seq<char>, i: int)
    requires
        0 <= i <= list.len(),
        forall|j: int| 0 <= j < i ==> list[j] != uri,
        i == list.len() || list[i] == uri,
    ensures
        ns_find(list, uri) == i,
    decreases list.len(),
{
    if list.len() > 0 {
        let dl = list.drop_last();
        if i < list.len() - 1 {
            lemma_ns_find_first(dl, uri, i);
        } else {
            lemma_ns_find_first(dl, uri, dl.len() as int);
        }
    }
}

/// The index of a namespace in the list, or the list's length, as code.
fn ns_find_exec(list: &Vec<String>, uri: &String) -> (r: usize)
    ensures
        r == ns_find(texts_view(list@), uri@),
{
    let n = list.len();
    let mut i: usize = 0;
    while i < n && !(list[i] == *uri)
        invariant
            n == list@.len(),
            i <= n,
            forall|j: int| 0 <= j < i ==> texts_view(list@)[j] != uri@,
        decreases n - i,
    {
        i = i + 1;
    }
    proof {
        lemma_ns_find_first(texts_view(list@), uri@, i as int);
    }
    i
}

/// Whether a prefix is reserved, as code.
fn reserved_exec(p: &String) -> (r: bool)
    ensures
        r == reserved(p@),
{
    let s = p.as_str();
    if s.unicode_len() < 3 {
        return false;
    }
    let a = s.get_char(0);
    let b = s.get_char(1);
    let c = s.get_char(2);
    (a == 'x' || a == 'X') && (b == 'm' || b == 'M') && (c == 'l' || c == 'L')
}

/// Whether a name is `xml:lang`, as code.
fn is_xml_lang_exec(n: &XmlName) -> (r: bool)
    ensures
        r == is_xml_lang(n@),
{
    let pre = match &n.prefix {
        Some(p) => {
            let s = p.as_str();
            let ok = s.unicode_len() == 3 && s.get_char(0) == 'x' && s.get_char(1) == 'm'
                && s.get_char(2) == 'l';
            proof {
                if ok {
                    assert(p@ =~= seq!['x', 'm', 'l']);
                } else if p@ == seq!['x', 'm', 'l'] {
                    assert(p@[0] == 'x' && p@[1] == 'm' && p@[2] == 'l');
                }
            }
            ok
        },
        None => false,
    };
    let l = n.local.as_str();
    let loc = l.unicode_len() == 4 && l.get_char(0) == 'l' && l.get_char(1) == 'a' && l.get_char(2)
        == 'n' && l.get_char(3) == 'g';
    proof {
        if loc {
            assert(n.local@ =~= seq!['l', 'a', 'n', 'g']);
        } else if n.local@ == seq!['l', 'a', 'n', 'g'] {
            assert(n.local@[0] == 'l' && n.local@[1] == 'a' && n.local@[2] == 'n' && n.local@[3]
                == 'g');
        }
    }
    pre && loc
}

/// A text quoted, as code.
fn quote_exec(s: &String) -> (r: String)
    ensures
        r@ == quote_text(s@),
{
    let t = s.as_str();
    let n = t.unicode_len();
    let mut out = String::new();
    let mut i: usize = 0;
    while i < n
        invariant
            n == t@.len(),
            t@ == s@,
            i <= n,
            out@ == quote_text(s@.take(i as int)),
        decreases n - i,
    {
        let c = t.get_char(i);
        let ghost before = out@;
        if c == '&' {
            out.append("&amp;");
            proof {
                reveal_strlit("&amp;");
            }
        } else if c == '<' {
            out.append("&lt;");
            proof {
                reveal_strlit("&lt;");
            }
        } else if c == '>' {
            out.append("&gt;");
            proof {
                reveal_strlit("&gt;");
            }
        } else if c == '"' {
            out.append("&quot;");
            proof {
                reveal_strlit("&quot;");
            }
        } else {
            string_push(&mut out, c);
        }
        proof {
            let q = s@.take(i + 1);
            assert(q.drop_last() =~= s@.take(i as int));
            assert(q.last() == c);
        }
        assert(out@ =~= before + quote_char(c));
        i = i + 1;
    }
    assert(s@.take(n as int) =~= s@);
    out
}

/// A string copied.
fn copy_string(s: &String) -> (r: String)
    ensures
        r@ == s@,
{
    s.clone()
}

/// Resolves a name against the namespaces, adding its namespace when new.
fn resolve_exec(namespaces: &mut Vec<String>, n: &XmlName) -> (r: (String, i32))
    requires
        old(namespaces)@.len() + 1 <= ns_limit(),
    ensures
        r.0@ == resolve(texts_view(old(namespaces)@), n@).name,
        r.1 as int == resolve(texts_view(old(namespaces)@), n@).ns,
        texts_view(final(namespaces)@) == resolve(texts_view(old(namespaces)@), n@).namespaces,
{
    let ghost list = texts_view(namespaces@);
    let is_res = match &n.prefix {
        Some(p) => reserved_exec(p),
        None => false,
    };
    if is_res {
        let p = match &n.prefix {
            Some(p) => p,
            None => {
                return (copy_string(&n.local), APR_XML_NS_NONE);
            },
        };
        let mut q = copy_string(p);
        string_push(&mut q, ':');
        q.append(n.local.as_str());
        return (q, APR_XML_NS_NONE);
    }
    match &n.uri {
        None => (copy_string(&n.local), APR_XML_NS_NONE),
        Some(u) => {
            proof {
                lemma_ns_find(list, u@);
            }
            let i = ns_find_exec(namespaces, u);
            if i == namespaces.len() {
                namespaces.push(copy_string(u));
                assert(texts_view(namespaces@) =~= list.push(u@));
            }
            (copy_string(&n.local), i as i32)
        },
    }
}

/// The attributes of a start tag resolved, as code.
fn attrs_resolve_exec(namespaces: &mut Vec<String>, raw: &Vec<XmlRawAttr>) -> (r: (
    Vec<XmlAttrData>,
    Option<String>,
))
    requires
        old(namespaces)@.len() + raw@.len() <= ns_limit(),
    ensures
        r.0@.map_values(|a: XmlAttrData| a@) == attrs_resolve(
            texts_view(old(namespaces)@),
            raw@.map_values(|x: XmlRawAttr| x@),
        ).attrs,
        opt_view(r.1) == attrs_resolve(
            texts_view(old(namespaces)@),
            raw@.map_values(|x: XmlRawAttr| x@),
        ).lang,
        texts_view(final(namespaces)@) == attrs_resolve(
            texts_view(old(namespaces)@),
            raw@.map_values(|x: XmlRawAttr| x@),
        ).namespaces,
{
    let ghost rv = raw@.map_values(|x: XmlRawAttr| x@);
    let ghost goal = attrs_resolve(texts_view(namespaces@), rv);
    let mut acc: Vec<XmlAttrData> = Vec::new();
    let mut lang: Option<String> = None;
    let mut j: usize = raw.len();
    assert(rv.take(j as int) =~= rv);
    while j > 0
        invariant
            j <= raw@.len(),
            rv == raw@.map_values(|x: XmlRawAttr| x@),
            namespaces@.len() + j <= ns_limit(),
            ({
                let r = attrs_resolve(texts_view(namespaces@), rv.take(j as int));
                goal == AttrsOut {
                    attrs: acc@.map_values(|a: XmlAttrData| a@) + r.attrs,
                    lang: if r.lang is Some {
                        r.lang
                    } else {
                        opt_view(lang)
                    },
                    namespaces: r.namespaces,
                }
            }),
        decreases j,
    {
        let a = &raw[j - 1];
        let ghost ns0 = texts_view(namespaces@);
        let ghost tj = rv.take(j as int);
        assert(tj.last() == a@);
        assert(tj.drop_last() =~= rv.take(j - 1));
        if is_xml_lang_exec(&a.name) {
            lang = Some(quote_exec(&a.value));
        } else {
            let ghost acc0 = acc@.map_values(|x: XmlAttrData| x@);
            let (nm, nsi) = resolve_exec(namespaces, &a.name);
            acc.push(XmlAttrData { name: nm, value: copy_string(&a.value), ns: nsi });
            proof {
                lemma_resolve(ns0, a@.name);
                let rn = resolve(ns0, a@.name);
                let r1 = attrs_resolve(rn.namespaces, rv.take(j - 1));
                assert(acc@.map_values(|x: XmlAttrData| x@) =~= acc0.push(
                    AttrView { name: rn.name, value: a@.value, ns: rn.ns },
                ));
                assert(acc@.map_values(|x: XmlAttrData| x@) + r1.attrs =~= acc0 + (seq![
                    AttrView { name: rn.name, value: a@.value, ns: rn.ns },
                ] + r1.attrs));
            }
        }
        j = j - 1;
    }
    assert(rv.take(0) =~= Seq::<RawAttrView>::empty());
    assert(acc@.map_values(|a: XmlAttrData| a@) + Seq::<AttrView>::empty() =~= acc@.map_values(
        |a: XmlAttrData| a@,
    ));
    (acc, lang)
}

/// Whether a namespace in scope is declared, as code.
fn declared_exec(p: &String, u: &String) -> (r: bool)
    ensures
        r == declared(p@, u@),
{
    let ps = p.as_str();
    let n = ps.unicode_len();
    let is_xml = n == 3 && ps.get_char(0) == 'x' && ps.get_char(1) == 'm' && ps.get_char(2) == 'l';
    let is_xmlns = n == 5 && ps.get_char(0) == 'x' && ps.get_char(1) == 'm' && ps.get_char(2)
        == 'l' && ps.get_char(3) == 'n' && ps.get_char(4) == 's';
    proof {
        if is_xml {
            assert(p@ =~= seq!['x', 'm', 'l']);
        } else if p@ == seq!['x', 'm', 'l'] {
            assert(p@[0] == 'x' && p@[1] == 'm' && p@[2] == 'l');
        }
        if is_xmlns {
            assert(p@ =~= seq!['x', 'm', 'l', 'n', 's']);
        } else if p@ == seq!['x', 'm', 'l', 'n', 's'] {
            assert(p@[0] == 'x' && p@[1] == 'm' && p@[2] == 'l' && p@[3] == 'n' && p@[4] == 's');
        }
    }
    !is_xml && !is_xmlns && !u.as_str().is_empty()
}

/// Adds the namespaces in scope at a start tag that are new.
fn declare_scope_exec(namespaces: &mut Vec<String>, scope: &Vec<(String, String)>)
    ensures
        texts_view(final(namespaces)@) == declare_scope(
            texts_view(old(namespaces)@),
            scope@.map_values(|x: (String, String)| (x.0@, x.1@)),
        ),
{
    let ghost sv = scope@.map_values(|x: (String, String)| (x.0@, x.1@));
    let ghost list0 = texts_view(namespaces@);
    let n = scope.len();
    let mut k: usize = 0;
    assert(sv.take(0) =~= Seq::<(Seq<char>, Seq<char>)>::empty());
    while k < n
        invariant
            n == scope@.len(),
            k <= n,
            sv == scope@.map_values(|x: (String, String)| (x.0@, x.1@)),
            texts_view(namespaces@) == declare_scope(list0, sv.take(k as int)),
        decreases n - k,
    {
        let (p, u) = &scope[k];
        let ghost before = texts_view(namespaces@);
        proof {
            assert(sv.take(k + 1).drop_last() =~= sv.take(k as int));
            assert(sv.take(k + 1).last() == (p@, u@));
        }
        if declared_exec(p, u) {
            let i = ns_find_exec(namespaces, u);
            if i == namespaces.len() {
                namespaces.push(copy_string(u));
                assert(texts_view(namespaces@) =~= before.push(u@));
            }
        }
        k = k + 1;
    }
    assert(sv.take(n as int) =~= sv);
}

/// The state of building a document, as code.
struct Builder {
    elems: Vec<XmlElemData>,
    stack: Vec<usize>,
    namespaces: Vec<String>,
    failed: bool,
    done: bool,
}

impl Builder {
    spec fn view_of(&self) -> BuildView {
        BuildView {
            elems: self.elems@.map_values(|d: XmlElemData| d@),
            stack: self.stack@.map_values(|x: usize| x as int),
            namespaces: texts_view(self.namespaces@),
            failed: self.failed,
            done: self.done,
        }
    }

    /// A start tag.
    fn start(&mut self, n: &XmlName, raw: &Vec<XmlRawAttr>, scope: &Vec<(String, String)>)
        requires
            state_ok(old(self).view_of()),
            !old(self).view_of().failed,
            !old(self).view_of().done,
        ensures
            final(self).view_of() == start_step(
                old(self).view_of(),
                n@,
                raw@.map_values(|x: XmlRawAttr| x@),
                scope@.map_values(|x: (String, String)| (x.0@, x.1@)),
            ),
    {
        let ghost s0 = self.view_of();
        let ghost rv = raw@.map_values(|x: XmlRawAttr| x@);
        let ghost sv = scope@.map_values(|x: (String, String)| (x.0@, x.1@));
        if self.stack.len() == 0 && self.elems.len() > 0 {
            self.failed = true;
            assert(self.view_of() =~= fail(s0));
            return;
        }
        if self.namespaces.len() > 0x7fff_ffff || scope.len() > 0x7fff_ffff - self.namespaces.len()
            || raw.len() > 0x7fff_ffff - self.namespaces.len() - scope.len() || raw.len()
            + self.namespaces.len() + scope.len() + 1 > 0x7fff_ffff {
            self.failed = true;
            assert(self.view_of() =~= fail(s0));
            return;
        }
        declare_scope_exec(&mut self.namespaces, scope);
        proof {
            lemma_declare_scope(s0.namespaces, sv);
        }
        let (ename, ens) = resolve_exec(&mut self.namespaces, n);
        let ghost rn = resolve(declare_scope(s0.namespaces, sv), n@);
        proof {
            lemma_resolve(declare_scope(s0.namespaces, sv), n@);
        }
        let (attrs, alang) = attrs_resolve_exec(&mut self.namespaces, raw);
        let ghost ar = attrs_resolve(rn.namespaces, rv);
        let idx = self.elems.len();
        let parent: Option<usize> = if self.stack.len() == 0 {
            None
        } else {
            Some(self.stack[self.stack.len() - 1])
        };
        proof {
            if self.stack.len() > 0 {
                assert(s0.stack[s0.stack.len() - 1] == s0.stack.last());
            }
        }
        let lang_own = alang.is_some();
        let lang: Option<String> = match alang {
            Some(l) => Some(l),
            None => match parent {
                Some(p) => match &self.elems[p].lang {
                    Some(l) => Some(copy_string(l)),
                    None => None,
                },
                None => None,
            },
        };
        let pos: usize = match parent {
            Some(p) => self.elems[p].children.len(),
            None => 0,
        };
        proof {
            if let Some(p) = parent {
                assert(s0.elems[p as int] == self.elems@[p as int]@);
            }
        }
        let e = XmlElemData {
            name: ename,
            ns: ens,
            lang,
            lang_own,
            attrs,
            first_cdata: Vec::new(),
            following_cdata: Vec::new(),
            children: Vec::new(),
            parent,
            pos,
        };
        let ghost ev = e@;
        match parent {
            Some(p) => {
                let ghost before = self.elems@.map_values(|d: XmlElemData| d@);
                self.elems[p].children.push(idx);
                proof {
                    let old_p = before[p as int];
                    assert(self.elems@.map_values(|d: XmlElemData| d@) =~~= before.update(
                        p as int,
                        ElemView { children: old_p.children.push(idx as int), ..old_p },
                    ));
                }
            },
            None => {},
        }
        let ghost mid = self.elems@.map_values(|d: XmlElemData| d@);
        self.elems.push(e);
        self.stack.push(idx);
        assert(self.elems@.map_values(|d: XmlElemData| d@) =~= mid.push(ev));
        assert(self.stack@.map_values(|x: usize| x as int) =~= s0.stack.push(idx as int));
        assert(self.view_of() =~~= start_step(s0, n@, rv, sv));
    }
}

impl Builder {
    /// An end tag.
    fn end(&mut self)
        ensures
            final(self).view_of() == end_step(old(self).view_of()),
    {
        let ghost s0 = self.view_of();
        if self.stack.len() == 0 {
            self.failed = true;
            assert(self.view_of() =~~= fail(s0));
        } else {
            self.stack.pop();
            assert(self.view_of() =~~= end_step(s0));
        }
    }

    /// Text.
    fn text(&mut self, t: &String)
        requires
            state_ok(old(self).view_of()),
        ensures
            final(self).view_of() == text_step(old(self).view_of(), t@),
    {
        let ghost s0 = self.view_of();
        if self.stack.len() == 0 {
            return;
        }
        let top = self.stack[self.stack.len() - 1];
        proof {
            assert(s0.stack[s0.stack.len() - 1] == s0.stack.last());
            assert(s0.elems[top as int] == self.elems@[top as int]@);
        }
        let nc = self.elems[top].children.len();
        if nc == 0 {
            let ghost before = s0.elems;
            self.elems[top].first_cdata.push(copy_string(t));
            proof {
                let e = before[top as int];
                assert(self.elems@.map_values(|d: XmlElemData| d@) =~~= before.update(
                    top as int,
                    ElemView { first_cdata: e.first_cdata.push(t@), ..e },
                ));
            }
        } else {
            let c = self.elems[top].children[nc - 1];
            proof {
                assert(s0.elems[top as int].children[nc - 1] == c as int);
                assert(s0.elems[top as int].children.last() == c as int);
                assert(c < self.elems@.len());
                assert(s0.elems[c as int] == self.elems@[c as int]@);
            }
            let ghost before = s0.elems;
            self.elems[c].following_cdata.push(copy_string(t));
            proof {
                let e = before[c as int];
                assert(self.elems@.map_values(|d: XmlElemData| d@) =~~= before.update(
                    c as int,
                    ElemView { following_cdata: e.following_cdata.push(t@), ..e },
                ));
            }
        }
        assert(self.view_of() =~~= text_step(s0, t@));
    }
}

impl XmlDoc {
    /// Builds a document from the reader's events, as the runtime's parser
    /// does from its callbacks (see [`build`]); a run of events that is not
    /// a whole document gives the status `General`.
    pub fn from_tokens(tokens: &Vec<XmlToken>) -> (r: Result<XmlDoc, Error>)
        ensures
            build_ok(build(tokens@.map_values(|t: XmlToken| t@))) ==> (r matches Ok(d)
                && d.elems_view() == build(tokens@.map_values(|t: XmlToken| t@)).elems
                && d.namespaces_view() == build(tokens@.map_values(|t: XmlToken| t@)).namespaces),
            !build_ok(build(tokens@.map_values(|t: XmlToken| t@))) ==> (r matches Err(e)
                && e.spec_status() == Status::General),
    {
        let ghost tv = tokens@.map_values(|t: XmlToken| t@);
        let mut b = Builder {
            elems: Vec::new(),
            stack: Vec::new(),
            namespaces: Vec::new(),
            failed: false,
            done: false,
        };
        assert(b.view_of() =~~= build(tv.take(0)));
        let n = tokens.len();
        let mut i: usize = 0;
        while i < n
            invariant
                n == tokens@.len(),
                tv == tokens@.map_values(|t: XmlToken| t@),
                i <= n,
                b.view_of() == build(tv.take(i as int)),
                state_ok(b.view_of()),
            decreases n - i,
        {
            let ghost s0 = b.view_of();
            proof {
                lemma_step_ok(s0, tv[i as int]);
                assert(tv.take(i + 1).drop_last() =~= tv.take(i as int));
                assert(tv.take(i + 1).last() == tv[i as int]);
            }
            if !b.failed && !b.done {
                match &tokens[i] {
                    XmlToken::Start(nm, raw, scope) => b.start(nm, raw, scope),
                    XmlToken::End => b.end(),
                    XmlToken::Text(t) => b.text(t),
                    XmlToken::Other => {},
                    XmlToken::Done => {
                        b.done = true;
                        assert(b.view_of() =~~= BuildView { done: true, ..s0 });
                    },
                    XmlToken::Failed(_) => {
                        b.failed = true;
                        assert(b.view_of() =~~= fail(s0));
                    },
                }
            }
            i = i + 1;
        }
        assert(tv.take(n as int) =~= tv);
        if b.done && !b.failed && b.stack.len() == 0 && b.elems.len() > 0 {
            let d = XmlDoc { elems: b.elems, namespaces: b.namespaces };
            Ok(d)
        } else {
            Err(Error::from_status(Status::General))
        }
    }
}

// ---------------------------------------------------------------------------
// Reading XML
// ---------------------------------------------------------------------------

/// A name from its parts.
fn make_name(prefix: Option<String>, local: String, uri: Option<String>) -> (r: XmlName)
    ensures
        r.prefix == prefix,
        r.local == local,
        r.uri == uri,
{
    XmlName { prefix, local, uri }
}

/// An attribute from its parts.
fn make_attr(prefix: Option<String>, local: String, uri: Option<String>, value: String) -> (r:
    XmlRawAttr)
    ensures
        r.name.prefix == prefix,
        r.name.local == local,
        r.name.uri == uri,
        r.value == value,
{
    XmlRawAttr { name: make_name(prefix, local, uri), value }
}

/// The events that the `xml-rs` reader gives on a text, up to and
/// including the end of the document or the first error, as the model
/// reads them; the reader keeps white space as text, gives CDATA sections
/// as text, passes over comments and joins adjacent text.
pub uninterp spec fn xml_events(data: Seq<u8>) -> Seq<TokenView>;

/// The events of a text.
///
/// Calls `xml::ParserConfig::create_reader`, set as [`xml_events`] says
/// (passing over comments and joining text are its defaults), and collects the events of the reader's iterator, which stops after the
/// end of the document or the first error; each event is handed over as a
/// library value, field by field, and an error as its message. The events
/// are what [`xml_events`] names.
#[verifier::external_body]
fn read_events(data: &[u8]) -> (r: Vec<XmlToken>)
    ensures
        r@.map_values(|t: XmlToken| t@) == xml_events(data@),
{
    let c = xml::ParserConfig::new().whitespace_to_characters(true).cdata_to_characters(true);
    c.create_reader(data).into_iter().map(|ev| match ev {
        Ok(E::StartElement { name, attributes, namespace }) => XmlToken::Start(
            make_name(name.prefix, name.local_name, name.namespace),
            attributes.into_iter().map(|a| make_attr(a.name.prefix, a.name.local_name, a.name.namespace, a.value)).collect(),
            namespace.0.into_iter().collect()),
        Ok(E::EndElement { .. }) => XmlToken::End,
        Ok(E::Characters(t)) => XmlToken::Text(t),
        Ok(E::EndDocument) => XmlToken::Done,
        Ok(_) => XmlToken::Other,
        Err(e) => XmlToken::Failed(e.to_string()),
    }).collect()
}

/// The events of a text, up to the end of the document or a failure (see
/// [`xml_events`]).
fn tokenize(data: &[u8]) -> (r: Vec<XmlToken>)
    ensures
        r@.map_values(|t: XmlToken| t@) == xml_events(data@),
{
    read_events(data)
}

/// A parser of XML, fed in pieces.
pub struct XmlParser {
    data: Vec<u8>,
}

impl XmlParser {
    /// The bytes fed so far.
    pub closed spec fn fed(&self) -> Seq<u8> {
        self.data@
    }

    /// A parser with nothing fed yet.
    pub fn new(pool: &Pool) -> (r: Result<XmlParser, Error>)
        ensures
            r matches Ok(p) && p.fed() == Seq::<u8>::empty(),
    {
        Ok(XmlParser { data: Vec::new() })
    }

    /// Feeds a piece of the document.
    pub fn feed(&mut self, data: &[u8]) -> (r: Result<(), Error>)
        ensures
            r is Ok,
            final(self).fed() == old(self).fed() + data@,
    {
        let ghost before = self.data@;
        let n = data.len();
        let mut i: usize = 0;
        while i < n
            invariant
                n == data@.len(),
                i <= n,
                self.data@ == before + data@.take(i as int),
            decreases n - i,
        {
            self.data.push(data[i]);
            assert(self.data@ =~= before + data@.take(i + 1));
            i = i + 1;
        }
        assert(data@.take(n as int) =~= data@);
        Ok(())
    }

    /// The document that the fed bytes make: built from the reader's
    /// events (see [`XmlDoc::from_tokens`]), or the status `General` when
    /// they are not a whole, well-formed document.
    pub fn done(self) -> (r: Result<XmlDoc, Error>)
        ensures
            build_ok(text_build(self.fed())) ==> (r matches Ok(d) && d.elems_view()
                == text_build(self.fed()).elems && d.namespaces_view() == text_build(
                self.fed(),
            ).namespaces),
            !build_ok(text_build(self.fed())) ==> (r matches Err(e) && e.spec_status()
                == Status::General),
    {
        let tokens = tokenize(self.data.as_slice());
        XmlDoc::from_tokens(&tokens)
    }

    /// The reader's message when the bytes fed so far are not a whole,
    /// well-formed document (see [`text_error`]).
    pub fn get_error(&self) -> (r: Option<String>)
        ensures
            match text_error(self.fed()) {
                Some(m) => r matches Some(x) && x@ == m,
                None => r is None,
            },
    {
        let tokens = tokenize(self.data.as_slice());
        let ghost tv = tokens@.map_values(|t: XmlToken| t@);
        let n = tokens.len();
        if n == 0 {
            return None;
        }
        assert(tv[n - 1] == tokens@[n - 1]@);
        match &tokens[n - 1] {
            XmlToken::Failed(m) => Some(copy_string(m)),
            _ => None,
        }
    }
}

/// What building a text's events gives (see [`xml_events`] and
/// [`build`]).
pub open spec fn text_build(data: Seq<u8>) -> BuildView {
    build(xml_events(data))
}

/// The reader's message on a text: that of its last event, when that is a
/// failure.
pub open spec fn text_error(data: Seq<u8>) -> Option<Seq<char>> {
    let ev = xml_events(data);
    if ev.len() == 0 {
        None
    } else {
        match ev.last() {
            TokenView::Failed(m) => Some(m),
            _ => None,
        }
    }
}

/// Parses a document (see [`XmlParser::done`]).
pub fn parse_xml(xml: &str, pool: &Pool) -> (r: Result<XmlDoc, Error>)
    ensures
        build_ok(text_build(xml.spec_bytes())) ==> (r matches Ok(d) && d.elems_view()
            == text_build(xml.spec_bytes()).elems && d.namespaces_view() == text_build(
            xml.spec_bytes(),
        ).namespaces),
        !build_ok(text_build(xml.spec_bytes())) ==> (r matches Err(e) && e.spec_status()
            == Status::General),
{
    let mut parser = match XmlParser::new(pool) {
        Ok(p) => p,
        Err(e) => {
            return Err(e);
        },
    };
    let bytes = crate::text::str_bytes(xml);
    match parser.feed(bytes.as_slice()) {
        Ok(()) => {},
        Err(e) => {
            return Err(e);
        },
    }
    assert(parser.fed() =~= xml.spec_bytes());
    parser.done()
}

/// Parses a document and writes it back as text, whole (see
/// [`doc_text`]).
pub fn parse(xml: &str, pool: &Pool) -> (r: Result<String, Error>)
    ensures
        build_ok(text_build(xml.spec_bytes())) ==> (r matches Ok(s) && s@ == doc_text(
            text_build(xml.spec_bytes()).elems,
            APR_XML_X2T_FULL,
        )),
        !build_ok(text_build(xml.spec_bytes())) ==> (r matches Err(e) && e.spec_status()
            == Status::General),
{
    let doc = match parse_xml(xml, pool) {
        Ok(d) => d,
        Err(e) => {
            return Err(e);
        },
    };
    doc.to_string(pool, APR_XML_X2T_FULL)
}

/// Whether a text is a whole, well-formed document: `Ok` when it parses.
pub fn validate(xml: &str) -> (r: Result<(), Error>)
    ensures
        build_ok(text_build(xml.spec_bytes())) ==> r is Ok,
        !build_ok(text_build(xml.spec_bytes())) ==> (r matches Err(e) && e.spec_status()
            == Status::General),
{
    let pool = Pool::new();
    match parse_xml(xml, &pool) {
        Ok(_) => Ok(()),
        Err(e) => Err(e),
    }
}

} // verus!
