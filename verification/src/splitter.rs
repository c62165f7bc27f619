//! The vector-document splitter: walks a parsed document's label-driven group
//! hierarchy (depth 1 destination path, depth 2 option key, depth 3 colour
//! option, depth 4 and deeper literal content), captures `+`-labelled reusable
//! fragments and `defs` content, inlines `use` references, and accumulates,
//! per (path, option) pair, an ordered list of (colour option, self-contained
//! document) layers.
//!
//! Both passes are specified as folds over the event stream
//! ([`capture_fold`], [`emit_fold`]); the executable splitter computes exactly
//! those folds.

use vstd::prelude::*;
use vstd::string::StringSliceAdditionalSpecFns;

use crate::markup::{local_name, local_name_spec, Attr, PieceView, XmlPiece};

verus! {

/// Why a source document was rejected: each case is fatal for the document.
#[derive(Debug, Clone, Copy, PartialEq, Eq, Structural)]
pub enum SplitError {
    /// A depth-1 group has no label to name its destination path.
    MissingPathLabel,
    /// A depth-2 group has no label to name its option key.
    MissingOptionLabel,
    /// A depth-3 group has no label to name its colour option.
    MissingColorLabel,
    /// A destination path holds a traversal sequence (`./` or `.\`).
    InvalidPath,
    /// A `+`-labelled fragment has no `id` to be referenced by.
    MissingFragmentId,
    /// A `use` element has no `href`, or an empty one.
    MissingUseTarget,
    /// Content stands where no (path, option, colour) group has been opened.
    DanglingContent,
    /// An option key names no sub-option after its colon.
    MissingSubOption,
}

/// One output of the splitter: a destination path, an optional
/// (option, sub-option) key, and the ordered (colour option, document text)
/// layers, earliest colour first.
pub struct SvgResult {
    pub path: Vec<u8>,
    pub option: Option<(Vec<u8>, Vec<u8>)>,
    pub layers: Vec<(Option<Vec<u8>>, Vec<u8>)>,
}

/// The view of one splitter output.
#[verifier::ext_equal]
pub struct ResultView {
    pub path: Seq<u8>,
    pub option: Option<(Seq<u8>, Seq<u8>)>,
    pub layers: Seq<(Option<Seq<u8>>, Seq<u8>)>,
}

impl View for SvgResult {
    type V = ResultView;

    open spec fn view(&self) -> ResultView {
        ResultView {
            path: self.path@,
            option: self.option.deep_view(),
            layers: self.layers.deep_view(),
        }
    }
}

impl DeepView for SvgResult {
    type V = ResultView;

    open spec fn deep_view(&self) -> ResultView {
        self.view()
    }
}

impl SvgResult {
    /// Whether this output needs a composite descriptor alongside its packed
    /// textures: more than one layer, or a colour option on its single layer.
    /// An output with exactly one layer and no colour option is emitted as a
    /// bare packed texture instead.
    pub fn needs_descriptor(&self) -> (r: bool)
        ensures
            r <==> (self.layers@.len() > 1 || (self.layers@.len() == 1 && self.layers@[0].0
                is Some)),
    {
        if self.layers.len() > 1 {
            true
        } else if self.layers.len() == 1 {
            match &self.layers[0].0 {
                Some(_) => true,
                None => false,
            }
        } else {
            false
        }
    }
}

/// The first attribute with the given local name, if any; its value.
pub open spec fn find_attr(attrs: Seq<(Seq<u8>, Seq<u8>)>, local: Seq<u8>) -> Option<Seq<u8>>
    decreases attrs.len(),
{
    if attrs.len() == 0 {
        None
    } else if local_name_spec(attrs[0].0) == local {
        Some(attrs[0].1)
    } else {
        find_attr(attrs.drop_first(), local)
    }
}

proof fn lemma_find_attr_at(attrs: Seq<(Seq<u8>, Seq<u8>)>, local: Seq<u8>, i: int)
    requires
        0 <= i <= attrs.len(),
        forall|j: int| 0 <= j < i ==> local_name_spec((#[trigger] attrs[j]).0) != local,
        i < attrs.len() ==> local_name_spec(attrs[i].0) == local,
    ensures
        find_attr(attrs, local) == (if i < attrs.len() {
            Some(attrs[i].1)
        } else {
            None::<Seq<u8>>
        }),
    decreases attrs.len(),
{
    if attrs.len() > 0 {
        if i == 0 {
        } else {
            assert forall|j: int| 0 <= j < i - 1 implies local_name_spec(
                (#[trigger] attrs.drop_first()[j]).0,
            ) != local by {
                assert(attrs.drop_first()[j] == attrs[j + 1]);
            }
            if i - 1 < attrs.drop_first().len() {
                assert(attrs.drop_first()[i - 1] == attrs[i]);
            }
            lemma_find_attr_at(attrs.drop_first(), local, i - 1);
        }
    }
}

/// The value of the first attribute with the given local name.
pub fn find_attr_value(attrs: &Vec<Attr>, local: &str) -> (r: Option<Vec<u8>>)
    ensures
        match r {
            Some(v) => find_attr(attrs.deep_view(), local.spec_bytes()) == Some(v@),
            None => find_attr(attrs.deep_view(), local.spec_bytes()) is None,
        },
{
    let n: usize = attrs.len();
    let mut i: usize = 0;
    while i < n
        invariant
            attrs@.len() == n,
            i <= n,
            forall|j: int|
                0 <= j < i ==> local_name_spec((#[trigger] attrs.deep_view()[j]).0)
                    != local.spec_bytes(),
        decreases n - i,
    {
        let ln = local_name(&attrs[i].name);
        if crate::text::eq_lit(&ln, local) {
            proof {
                lemma_find_attr_at(attrs.deep_view(), local.spec_bytes(), i as int);
            }
            return Some(crate::text::clone_bytes(&attrs[i].value));
        }
        i = i + 1;
    }
    proof {
        lemma_find_attr_at(attrs.deep_view(), local.spec_bytes(), n as int);
    }
    None
}

/// Attributes with the given local name removed.
pub open spec fn strip_attr(attrs: Seq<(Seq<u8>, Seq<u8>)>, local: Seq<u8>) -> Seq<
    (Seq<u8>, Seq<u8>),
>
    decreases attrs.len(),
{
    if attrs.len() == 0 {
        Seq::empty()
    } else {
        strip_attr(attrs.drop_last(), local) + (if local_name_spec(attrs.last().0) == local {
            Seq::empty()
        } else {
            seq![attrs.last()]
        })
    }
}

/// Remove every attribute with the given local name.
pub fn strip_attr_exec(attrs: &Vec<Attr>, local: &str) -> (r: Vec<Attr>)
    ensures
        r.deep_view() == strip_attr(attrs.deep_view(), local.spec_bytes()),
{
    let n: usize = attrs.len();
    let mut r: Vec<Attr> = Vec::new();
    let mut i: usize = 0;
    while i < n
        invariant
            attrs@.len() == n,
            i <= n,
            r.deep_view() =~~= strip_attr(attrs.deep_view().take(i as int), local.spec_bytes()),
        decreases n - i,
    {
        let ln = local_name(&attrs[i].name);
        let ghost prev = r.deep_view();
        if !crate::text::eq_lit(&ln, local) {
            r.push(
                Attr {
                    name: crate::text::clone_bytes(&attrs[i].name),
                    value: crate::text::clone_bytes(&attrs[i].value),
                },
            );
            proof {
                assert(r.deep_view() =~~= prev.push(attrs.deep_view()[i as int]));
            }
        }
        proof {
            assert(attrs.deep_view().take(i as int + 1).drop_last() =~= attrs.deep_view().take(
                i as int,
            ));
            assert(attrs.deep_view().take(i as int + 1).last() == attrs.deep_view()[i as int]);
            assert(r.deep_view() =~~= strip_attr(
                attrs.deep_view().take(i as int + 1),
                local.spec_bytes(),
            ));
        }
        i = i + 1;
    }
    proof {
        assert(attrs.deep_view().take(n as int) =~= attrs.deep_view());
    }
    r
}

/// The rasterizer-compatibility patch: a `rect` element loses `rx` and `ry`
/// attributes whose value is exactly `0`.
pub open spec fn patch_attrs_spec(name: Seq<u8>, attrs: Seq<(Seq<u8>, Seq<u8>)>) -> Seq<
    (Seq<u8>, Seq<u8>),
>
    decreases attrs.len(),
{
    if local_name_spec(name) != ("rect").spec_bytes() {
        attrs
    } else if attrs.len() == 0 {
        Seq::empty()
    } else {
        patch_attrs_spec(name, attrs.drop_last()) + (if (local_name_spec(attrs.last().0) == (
        "rx").spec_bytes() || local_name_spec(attrs.last().0) == ("ry").spec_bytes())
            && attrs.last().1 == ("0").spec_bytes() {
            Seq::empty()
        } else {
            seq![attrs.last()]
        })
    }
}

/// Strip zero `rx`/`ry` attributes from `rect` elements; other elements keep
/// their attributes.
pub fn patch_attributes(name: &Vec<u8>, attrs: &Vec<Attr>) -> (r: Vec<Attr>)
    ensures
        r.deep_view() == patch_attrs_spec(name@, attrs.deep_view()),
{
    let ln = local_name(name);
    if !crate::text::eq_lit(&ln, "rect") {
        let n: usize = attrs.len();
        let mut r: Vec<Attr> = Vec::new();
        let mut i: usize = 0;
        while i < n
            invariant
                attrs@.len() == n,
                i <= n,
                r.deep_view() =~~= attrs.deep_view().take(i as int),
            decreases n - i,
        {
            let ghost prev = r.deep_view();
            r.push(
                Attr {
                    name: crate::text::clone_bytes(&attrs[i].name),
                    value: crate::text::clone_bytes(&attrs[i].value),
                },
            );
            proof {
                assert(r.deep_view() =~~= prev.push(attrs.deep_view()[i as int]));
                assert(r.deep_view() =~~= attrs.deep_view().take(i as int + 1));
            }
            i = i + 1;
        }
        proof {
            assert(attrs.deep_view().take(n as int) =~= attrs.deep_view());
            assert(r.deep_view() =~~= patch_attrs_spec(name@, attrs.deep_view()));
        }
        return r;
    }
    let n: usize = attrs.len();
    let mut r: Vec<Attr> = Vec::new();
    let mut i: usize = 0;
    while i < n
        invariant
            local_name_spec(name@) == ("rect").spec_bytes(),
            attrs@.len() == n,
            i <= n,
            r.deep_view() =~~= patch_attrs_spec(name@, attrs.deep_view().take(i as int)),
        decreases n - i,
    {
        let ln2 = local_name(&attrs[i].name);
        let drop_it: bool = (crate::text::eq_lit(&ln2, "rx") || crate::text::eq_lit(&ln2, "ry"))
            && crate::text::eq_lit(&attrs[i].value, "0");
        let ghost prev = r.deep_view();
        if !drop_it {
            r.push(
                Attr {
                    name: crate::text::clone_bytes(&attrs[i].name),
                    value: crate::text::clone_bytes(&attrs[i].value),
                },
            );
            proof {
                assert(r.deep_view() =~~= prev.push(attrs.deep_view()[i as int]));
            }
        }
        proof {
            assert(attrs.deep_view().take(i as int + 1).drop_last() =~= attrs.deep_view().take(
                i as int,
            ));
            assert(attrs.deep_view().take(i as int + 1).last() == attrs.deep_view()[i as int]);
            assert(r.deep_view() =~~= patch_attrs_spec(
                name@,
                attrs.deep_view().take(i as int + 1),
            ));
        }
        i = i + 1;
    }
    proof {
        assert(attrs.deep_view().take(n as int) =~= attrs.deep_view());
    }
    r
}


/// An owned copy of an attribute list, view for view.
pub fn clone_attrs(attrs: &Vec<Attr>) -> (r: Vec<Attr>)
    ensures
        r.deep_view() == attrs.deep_view(),
{
    let n: usize = attrs.len();
    let mut r: Vec<Attr> = Vec::new();
    let mut i: usize = 0;
    while i < n
        invariant
            attrs@.len() == n,
            i <= n,
            r@.len() == i,
            forall|j: int| 0 <= j < i ==> (#[trigger] r.deep_view()[j]) == attrs.deep_view()[j],
        decreases n - i,
    {
        let ghost prevv = r@;
        let ghost prevdv = r.deep_view();
        r.push(
            Attr {
                name: crate::text::clone_bytes(&attrs[i].name),
                value: crate::text::clone_bytes(&attrs[i].value),
            },
        );
        proof {
            assert forall|j: int| 0 <= j < i + 1 implies (#[trigger] r.deep_view()[j])
                == attrs.deep_view()[j] by {
                assert(r.deep_view()[j] == r@[j].deep_view());
                if j < i {
                    assert(prevdv[j] == attrs.deep_view()[j]);
                    assert(prevdv[j] == prevv[j].deep_view());
                    assert(r@[j] == prevv[j]);
                } else {
                    assert(r@[j].name@ == attrs@[i as int].name@);
                    assert(r@[j].value@ == attrs@[i as int].value@);
                    assert(attrs.deep_view()[j] == attrs@[j].deep_view());
                }
            }
        }
        i = i + 1;
    }
    proof {
        assert(r.deep_view() =~~= attrs.deep_view());
    }
    r
}

/// An owned copy of an event, view for view.
pub fn clone_piece(e: &XmlPiece) -> (r: XmlPiece)
    ensures
        r@ == e@,
{
    match e {
        XmlPiece::Start { name, attrs, ns } => XmlPiece::Start {
            name: crate::text::clone_bytes(name),
            attrs: clone_attrs(attrs),
            ns: clone_attrs(ns),
        },
        XmlPiece::End { name } => XmlPiece::End { name: crate::text::clone_bytes(name) },
        XmlPiece::Text { content } => XmlPiece::Text {
            content: crate::text::clone_bytes(content),
        },
    }
}

/// One captured reusable fragment: its id and its events.
pub struct Fragment {
    pub id: Vec<u8>,
    pub events: Vec<XmlPiece>,
}

/// The view of a captured fragment.
#[verifier::ext_equal]
pub struct FragView {
    pub id: Seq<u8>,
    pub events: Seq<PieceView>,
}

impl View for Fragment {
    type V = FragView;

    open spec fn view(&self) -> FragView {
        FragView { id: self.id@, events: self.events.deep_view() }
    }
}

impl DeepView for Fragment {
    type V = FragView;

    open spec fn deep_view(&self) -> FragView {
        self.view()
    }
}

/// The state of the capture pass: the current depth, whether a `defs` block or
/// `+` fragment is being captured and from which depth, the captured `defs`
/// events, and the captured fragments by id.
pub struct CaptureState {
    pub depth: int,
    pub active: bool,
    pub start_depth: int,
    pub frag: Option<Seq<u8>>,
    pub defs: Seq<PieceView>,
    pub frags: Seq<FragView>,
    pub err: Option<SplitError>,
}

/// The first fragment entry with the given id, or the entry count.
pub open spec fn frag_index(fs: Seq<FragView>, id: Seq<u8>) -> int
    decreases fs.len(),
{
    if fs.len() == 0 {
        0
    } else if fs[0].id == id {
        0
    } else {
        1 + frag_index(fs.drop_first(), id)
    }
}

proof fn lemma_frag_index_at(fs: Seq<FragView>, id: Seq<u8>, i: int)
    requires
        0 <= i <= fs.len(),
        forall|j: int| 0 <= j < i ==> (#[trigger] fs[j]).id != id,
        i < fs.len() ==> fs[i].id == id,
    ensures
        frag_index(fs, id) == i,
    decreases fs.len(),
{
    if fs.len() > 0 {
        if i == 0 {
        } else {
            assert forall|j: int| 0 <= j < i - 1 implies (#[trigger] fs.drop_first()[j]).id
                != id by {
                assert(fs.drop_first()[j] == fs[j + 1]);
            }
            if i - 1 < fs.drop_first().len() {
                assert(fs.drop_first()[i - 1] == fs[i]);
            }
            lemma_frag_index_at(fs.drop_first(), id, i - 1);
        }
    }
}

/// A fragment table with one event appended to the entry of the given id; a
/// new entry is created at the end when the id is new.
pub open spec fn frag_append(fs: Seq<FragView>, id: Seq<u8>, e: PieceView) -> Seq<FragView> {
    let k = frag_index(fs, id);
    if k < fs.len() {
        fs.update(k, FragView { id: fs[k].id, events: fs[k].events.push(e) })
    } else {
        fs.push(FragView { id: id, events: seq![e] })
    }
}

/// One event of the capture pass. A `defs` group at depth 1, or any group
/// whose label starts with `+`, begins a capture until its closing tag: `+`
/// fragments are keyed by their `id` (with the root's `style` attribute
/// removed), `defs` content is gathered into the shared list. Character data
/// is captured only inside fragments.
pub open spec fn capture_step(st: CaptureState, e: PieceView) -> CaptureState {
    if st.err is Some {
        st
    } else {
        match e {
            PieceView::Start { name, attrs, ns } => {
                let label = find_attr(attrs, ("label").spec_bytes());
                let plus = label matches Some(v) && v.len() > 0 && v[0] == 43;
                let activate = !st.active && ((st.depth == 1 && local_name_spec(name) == (
                "defs").spec_bytes()) || plus);
                if activate && plus && find_attr(attrs, ("id").spec_bytes()) is None {
                    CaptureState { err: Some(SplitError::MissingFragmentId), ..st }
                } else {
                    let st1 = if activate {
                        CaptureState {
                            active: true,
                            start_depth: st.depth,
                            frag: if plus {
                                find_attr(attrs, ("id").spec_bytes())
                            } else {
                                None
                            },
                            ..st
                        }
                    } else {
                        st
                    };
                    let ev = PieceView::Start {
                        name,
                        attrs: if st1.frag is Some && st.depth == st1.start_depth {
                            strip_attr(attrs, ("style").spec_bytes())
                        } else {
                            attrs
                        },
                        ns,
                    };
                    let st2 = match st1.frag {
                        Some(id) => CaptureState { frags: frag_append(st1.frags, id, ev), ..st1 },
                        None => if st1.active {
                            CaptureState { defs: st1.defs.push(ev), ..st1 }
                        } else {
                            st1
                        },
                    };
                    CaptureState { depth: st2.depth + 1, ..st2 }
                }
            },
            PieceView::End { name } => {
                let ev = PieceView::End { name };
                let st1 = match st.frag {
                    Some(id) => CaptureState { frags: frag_append(st.frags, id, ev), ..st },
                    None => if st.active {
                        CaptureState { defs: st.defs.push(ev), ..st }
                    } else {
                        st
                    },
                };
                let st2 = CaptureState { depth: st1.depth - 1, ..st1 };
                if st2.depth == st2.start_depth {
                    CaptureState { active: false, frag: None, ..st2 }
                } else {
                    st2
                }
            },
            PieceView::Text { content } => {
                match st.frag {
                    Some(id) => CaptureState {
                        frags: frag_append(st.frags, id, PieceView::Text { content }),
                        ..st
                    },
                    None => st,
                }
            },
        }
    }
}

pub open spec fn capture_init() -> CaptureState {
    CaptureState {
        depth: 0,
        active: false,
        start_depth: 0,
        frag: None,
        defs: Seq::empty(),
        frags: Seq::empty(),
        err: None,
    }
}

/// The capture pass over a whole event stream.
pub open spec fn capture_fold(events: Seq<PieceView>) -> CaptureState
    decreases events.len(),
{
    if events.len() == 0 {
        capture_init()
    } else {
        capture_step(capture_fold(events.drop_last()), events.last())
    }
}

proof fn lemma_capture_fold_step(events: Seq<PieceView>, i: int)
    requires
        0 <= i < events.len(),
    ensures
        capture_fold(events.take(i + 1)) == capture_step(capture_fold(events.take(i)), events[i]),
{
    assert(events.take(i + 1).drop_last() =~= events.take(i));
    assert(events.take(i + 1).last() == events[i]);
}

proof fn lemma_capture_halt(events: Seq<PieceView>, i: int)
    requires
        0 <= i <= events.len(),
        capture_fold(events.take(i)).err is Some,
    ensures
        capture_fold(events) == capture_fold(events.take(i)),
    decreases events.len() - i,
{
    if i < events.len() {
        lemma_capture_fold_step(events, i);
        lemma_capture_halt(events, i + 1);
    } else {
        assert(events.take(i) =~= events);
    }
}

/// Append one event to a fragment table entry, creating the entry when new.
fn frag_append_exec(fs: &mut Vec<Fragment>, id: &Vec<u8>, e: XmlPiece)
    ensures
        final(fs).deep_view() == frag_append(old(fs).deep_view(), id@, e@),
{
    let ghost fs0 = fs.deep_view();
    let n: usize = fs.len();
    let mut k: usize = 0;
    while k < n
        invariant
            fs.deep_view() == fs0,
            fs0 == old(fs).deep_view(),
            fs@.len() == n,
            k <= n,
            forall|j: int| 0 <= j < k ==> (#[trigger] fs0[j]).id != id@,
        decreases n - k,
    {
        if crate::text::bytes_eq(&fs[k].id, id) {
            proof {
                assert(fs0[k as int] == fs@[k as int].deep_view());
                lemma_frag_index_at(fs0, id@, k as int);
            }
            let ghost pre = fs@;
            let mut entry = fs.remove(k);
            entry.events.push(e);
            fs.insert(k, entry);
            proof {
                assert(fs@ == pre.remove(k as int).insert(k as int, fs@[k as int]));
                assert(fs.deep_view() =~~= frag_append(fs0, id@, e@)) by {
                    assert forall|j: int|
                        0 <= j < fs@.len() && j != k implies fs@[j] == pre[j] by {}
                    assert(fs@[k as int].id@ == pre[k as int].id@);
                    assert(fs@[k as int].events@ == pre[k as int].events@.push(e));
                    assert(fs@[k as int].events.deep_view() =~~= pre[k as int].events.deep_view().push(e@));
                    assert(fs@[k as int].deep_view() =~~= frag_append(fs0, id@, e@)[k as int]);
                }
            }
            return ;
        }
        proof {
            assert(fs0[k as int] == fs@[k as int].deep_view());
        }
        k = k + 1;
    }
    proof {
        lemma_frag_index_at(fs0, id@, n as int);
    }
    let mut evs: Vec<XmlPiece> = Vec::new();
    evs.push(e);
    fs.push(Fragment { id: crate::text::clone_bytes(id), events: evs });
    proof {
        assert(fs.deep_view() =~~= frag_append(fs0, id@, e@));
    }
}


/// Append one event to an event list, tracking the deep view.
fn push_event(v: &mut Vec<XmlPiece>, e: XmlPiece)
    ensures
        final(v).deep_view() == old(v).deep_view().push(e@),
{
    let ghost pv = v@;
    let ghost pdv = v.deep_view();
    let ghost ev = e@;
    v.push(e);
    proof {
        assert(v.deep_view() =~~= pdv.push(ev)) by {
            assert forall|m: int| 0 <= m < v@.len() implies v.deep_view()[m] == (if m < pv.len() {
                pv[m]@
            } else {
                ev
            }) by {
                assert(v.deep_view()[m] == v@[m]@);
                if m < pv.len() {
                    assert(v@[m] == pv[m]);
                }
            }
            assert forall|m: int| 0 <= m < pdv.len() implies pdv[m] == pv[m]@ by {}
        }
    }
}

/// The capture pass over a parsed document: gather `defs` content and
/// `+`-labelled fragments for later inlining. Returns the `defs` events and
/// the fragment table, or the error of the fold.
pub fn capture(events: &Vec<XmlPiece>) -> (r: Result<(Vec<XmlPiece>, Vec<Fragment>), SplitError>)
    ensures
        ({
            let st = capture_fold(events.deep_view());
            match r {
                Ok(df) => st.err is None && df.0.deep_view() == st.defs && df.1.deep_view()
                    == st.frags,
                Err(e) => st.err == Some(e),
            }
        }),
{
    let ghost evs = events.deep_view();
    let n: usize = events.len();
    let mut depth: i128 = 0;
    let mut active: bool = false;
    let mut start_depth: i128 = 0;
    let mut frag: Option<Vec<u8>> = None;
    let mut defs: Vec<XmlPiece> = Vec::new();
    let mut frags: Vec<Fragment> = Vec::new();
    let mut i: usize = 0;
    while i < n
        invariant
            events@.len() == n,
            evs == events.deep_view(),
            i <= n,
            -(i as int) <= depth <= i as int,
            ({
                let st = capture_fold(evs.take(i as int));
                &&& st.err is None
                &&& st.depth == depth as int
                &&& st.active == active
                &&& st.start_depth == start_depth as int
                &&& (match st.frag {
                    Some(idsq) => frag matches Some(v) && v@ == idsq,
                    None => frag is None,
                })
                &&& defs.deep_view() == st.defs
                &&& frags.deep_view() == st.frags
            }),
        decreases n - i,
    {
        proof {
            lemma_capture_fold_step(evs, i as int);
            assert(evs[i as int] == events@[i as int]@);
        }
        let ghost st_pre = capture_fold(evs.take(i as int));
        let ghost st_post = capture_step(st_pre, evs[i as int]);
        match &events[i] {
            XmlPiece::Start { name, attrs, ns } => {
                let label = find_attr_value(attrs, "label");
                let plus: bool = match &label {
                    Some(v) => v.len() > 0 && v[0] == 43,
                    None => false,
                };
                let activate: bool = !active && ((depth == 1 && {
                    let ln = local_name(name);
                    crate::text::eq_lit(&ln, "defs")
                }) || plus);
                if activate {
                    if plus {
                        match find_attr_value(attrs, "id") {
                            Some(idv) => {
                                active = true;
                                start_depth = depth;
                                frag = Some(idv);
                            },
                            None => {
                                proof {
                                    lemma_capture_halt(evs, i as int + 1);
                                }
                                return Err(SplitError::MissingFragmentId);
                            },
                        }
                    } else {
                        active = true;
                        start_depth = depth;
                        frag = None;
                    }
                }
                let filter: bool = match &frag {
                    Some(_) => depth == start_depth,
                    None => false,
                };
                let ev = XmlPiece::Start {
                    name: crate::text::clone_bytes(name),
                    attrs: if filter {
                        strip_attr_exec(attrs, "style")
                    } else {
                        clone_attrs(attrs)
                    },
                    ns: clone_attrs(ns),
                };
                match &frag {
                    Some(idv) => {
                        frag_append_exec(&mut frags, idv, ev);
                    },
                    None => {
                        if active {
                            defs.push(ev);
                            proof {
                                assert(defs.deep_view() =~~= st_post.defs);
                            }
                        }
                    },
                }
                depth = depth + 1;
            },
            XmlPiece::End { name } => {
                let ev = XmlPiece::End { name: crate::text::clone_bytes(name) };
                match &frag {
                    Some(idv) => {
                        frag_append_exec(&mut frags, idv, ev);
                    },
                    None => {
                        if active {
                            defs.push(ev);
                            proof {
                                assert(defs.deep_view() =~~= st_post.defs);
                            }
                        }
                    },
                }
                depth = depth - 1;
                if depth == start_depth {
                    active = false;
                    frag = None;
                }
            },
            XmlPiece::Text { content } => {
                match &frag {
                    Some(idv) => {
                        let ev = XmlPiece::Text { content: crate::text::clone_bytes(content) };
                        frag_append_exec(&mut frags, idv, ev);
                    },
                    None => {},
                }
            },
        }
        i = i + 1;
    }
    proof {
        assert(evs.take(n as int) =~= evs);
    }
    Ok((defs, frags))
}


/// One accumulated layer: its colour option label and its document events.
pub struct LayerDoc {
    pub color: Vec<u8>,
    pub events: Vec<XmlPiece>,
}

#[verifier::ext_equal]
pub struct LayerDocView {
    pub color: Seq<u8>,
    pub events: Seq<PieceView>,
}

impl View for LayerDoc {
    type V = LayerDocView;

    open spec fn view(&self) -> LayerDocView {
        LayerDocView { color: self.color@, events: self.events.deep_view() }
    }
}

impl DeepView for LayerDoc {
    type V = LayerDocView;

    open spec fn deep_view(&self) -> LayerDocView {
        self.view()
    }
}

/// The layers of one option key, in document order.
pub struct OptGroup {
    pub option: Vec<u8>,
    pub layers: Vec<LayerDoc>,
}

#[verifier::ext_equal]
pub struct OptGroupView {
    pub option: Seq<u8>,
    pub layers: Seq<LayerDocView>,
}

impl View for OptGroup {
    type V = OptGroupView;

    open spec fn view(&self) -> OptGroupView {
        OptGroupView { option: self.option@, layers: self.layers.deep_view() }
    }
}

impl DeepView for OptGroup {
    type V = OptGroupView;

    open spec fn deep_view(&self) -> OptGroupView {
        self.view()
    }
}

/// The option groups of one destination path, in document order.
pub struct PathGroup {
    pub path: Vec<u8>,
    pub options: Vec<OptGroup>,
}

#[verifier::ext_equal]
pub struct PathGroupView {
    pub path: Seq<u8>,
    pub options: Seq<OptGroupView>,
}

impl View for PathGroup {
    type V = PathGroupView;

    open spec fn view(&self) -> PathGroupView {
        PathGroupView { path: self.path@, options: self.options.deep_view() }
    }
}

impl DeepView for PathGroup {
    type V = PathGroupView;

    open spec fn deep_view(&self) -> PathGroupView {
        self.view()
    }
}

pub open spec fn group_index(gs: Seq<PathGroupView>, path: Seq<u8>) -> int
    decreases gs.len(),
{
    if gs.len() == 0 {
        0
    } else if gs[0].path == path {
        0
    } else {
        1 + group_index(gs.drop_first(), path)
    }
}

proof fn lemma_group_index_at(gs: Seq<PathGroupView>, path: Seq<u8>, i: int)
    requires
        0 <= i <= gs.len(),
        forall|j: int| 0 <= j < i ==> (#[trigger] gs[j]).path != path,
        i < gs.len() ==> gs[i].path == path,
    ensures
        group_index(gs, path) == i,
    decreases gs.len(),
{
    if gs.len() > 0 {
        if i == 0 {
        } else {
            assert forall|j: int| 0 <= j < i - 1 implies (#[trigger] gs.drop_first()[j]).path
                != path by {
                assert(gs.drop_first()[j] == gs[j + 1]);
            }
            if i - 1 < gs.drop_first().len() {
                assert(gs.drop_first()[i - 1] == gs[i]);
            }
            lemma_group_index_at(gs.drop_first(), path, i - 1);
        }
    }
}

pub open spec fn opt_index(os: Seq<OptGroupView>, option: Seq<u8>) -> int
    decreases os.len(),
{
    if os.len() == 0 {
        0
    } else if os[0].option == option {
        0
    } else {
        1 + opt_index(os.drop_first(), option)
    }
}

proof fn lemma_opt_index_at(os: Seq<OptGroupView>, option: Seq<u8>, i: int)
    requires
        0 <= i <= os.len(),
        forall|j: int| 0 <= j < i ==> (#[trigger] os[j]).option != option,
        i < os.len() ==> os[i].option == option,
    ensures
        opt_index(os, option) == i,
    decreases os.len(),
{
    if os.len() > 0 {
        if i == 0 {
        } else {
            assert forall|j: int| 0 <= j < i - 1 implies (#[trigger] os.drop_first()[j]).option
                != option by {
                assert(os.drop_first()[j] == os[j + 1]);
            }
            if i - 1 < os.drop_first().len() {
                assert(os.drop_first()[i - 1] == os[i]);
            }
            lemma_opt_index_at(os.drop_first(), option, i - 1);
        }
    }
}

/// The groups with the given events appended to the last layer of the current
/// (path, option) group, or `None` when no such layer is open.
pub open spec fn append_events(
    gs: Seq<PathGroupView>,
    path: Seq<u8>,
    option: Seq<u8>,
    es: Seq<PieceView>,
) -> Option<Seq<PathGroupView>> {
    let gi = group_index(gs, path);
    if gi >= gs.len() {
        None
    } else {
        let oi = opt_index(gs[gi].options, option);
        if oi >= gs[gi].options.len() {
            None
        } else {
            let layers = gs[gi].options[oi].layers;
            if layers.len() == 0 {
                None
            } else {
                let ld = layers.last();
                Some(
                    gs.update(
                        gi,
                        PathGroupView {
                            path: gs[gi].path,
                            options: gs[gi].options.update(
                                oi,
                                OptGroupView {
                                    option: gs[gi].options[oi].option,
                                    layers: layers.update(
                                        layers.len() - 1,
                                        LayerDocView { color: ld.color, events: ld.events + es },
                                    ),
                                },
                            ),
                        },
                    ),
                )
            }
        }
    }
}

/// The groups with a new layer opened for (path, option, colour): the path and
/// option groups are created in order of first appearance, and a new layer
/// starts only when the colour differs from the group's immediately preceding
/// layer.
pub open spec fn start_layer(
    gs: Seq<PathGroupView>,
    path: Seq<u8>,
    option: Seq<u8>,
    color: Seq<u8>,
    doc: Seq<PieceView>,
) -> Seq<PathGroupView> {
    let nl = LayerDocView { color: color, events: doc };
    let gi = group_index(gs, path);
    if gi >= gs.len() {
        gs.push(
            PathGroupView {
                path: path,
                options: seq![OptGroupView { option: option, layers: seq![nl] }],
            },
        )
    } else {
        let g = gs[gi];
        let oi = opt_index(g.options, option);
        if oi >= g.options.len() {
            gs.update(
                gi,
                PathGroupView {
                    path: g.path,
                    options: g.options.push(OptGroupView { option: option, layers: seq![nl] }),
                },
            )
        } else {
            let o = g.options[oi];
            if o.layers.len() == 0 || o.layers.last().color != color {
                gs.update(
                    gi,
                    PathGroupView {
                        path: g.path,
                        options: g.options.update(
                            oi,
                            OptGroupView { option: o.option, layers: o.layers.push(nl) },
                        ),
                    },
                )
            } else {
                gs
            }
        }
    }
}

/// The first group with the given path, or the group count.
fn find_group(gs: &Vec<PathGroup>, path: &Vec<u8>) -> (r: usize)
    ensures
        r as int == group_index(gs.deep_view(), path@),
        r <= gs@.len(),
        r < gs@.len() ==> gs@[r as int].path@ == path@,
{
    let n: usize = gs.len();
    let mut k: usize = 0;
    while k < n
        invariant
            gs@.len() == n,
            k <= n,
            forall|j: int| 0 <= j < k ==> (#[trigger] gs.deep_view()[j]).path != path@,
        decreases n - k,
    {
        if crate::text::bytes_eq(&gs[k].path, path) {
            proof {
                assert(gs.deep_view()[k as int] == gs@[k as int].deep_view());
                lemma_group_index_at(gs.deep_view(), path@, k as int);
            }
            return k;
        }
        proof {
            assert(gs.deep_view()[k as int] == gs@[k as int].deep_view());
        }
        k = k + 1;
    }
    proof {
        lemma_group_index_at(gs.deep_view(), path@, n as int);
    }
    n
}

/// The first option group with the given option key, or the group count.
fn find_opt(os: &Vec<OptGroup>, option: &Vec<u8>) -> (r: usize)
    ensures
        r as int == opt_index(os.deep_view(), option@),
        r <= os@.len(),
        r < os@.len() ==> os@[r as int].option@ == option@,
{
    let n: usize = os.len();
    let mut k: usize = 0;
    while k < n
        invariant
            os@.len() == n,
            k <= n,
            forall|j: int| 0 <= j < k ==> (#[trigger] os.deep_view()[j]).option != option@,
        decreases n - k,
    {
        if crate::text::bytes_eq(&os[k].option, option) {
            proof {
                assert(os.deep_view()[k as int] == os@[k as int].deep_view());
                lemma_opt_index_at(os.deep_view(), option@, k as int);
            }
            return k;
        }
        proof {
            assert(os.deep_view()[k as int] == os@[k as int].deep_view());
        }
        k = k + 1;
    }
    proof {
        lemma_opt_index_at(os.deep_view(), option@, n as int);
    }
    n
}

/// Append events to the current open layer; reports whether one existed.
fn append_events_exec(
    gs: &mut Vec<PathGroup>,
    path: &Vec<u8>,
    option: &Vec<u8>,
    es: Vec<XmlPiece>,
) -> (ok: bool)
    ensures
        ok <==> append_events(old(gs).deep_view(), path@, option@, es.deep_view()) is Some,
        ok ==> Some(final(gs).deep_view()) == append_events(
            old(gs).deep_view(),
            path@,
            option@,
            es.deep_view(),
        ),
        !ok ==> final(gs).deep_view() == old(gs).deep_view(),
{
    let ghost gs0 = gs.deep_view();
    let gi = find_group(gs, path);
    if gi >= gs.len() {
        return false;
    }
    let ghost gpre = gs@;
    let mut g = gs.remove(gi);
    let oi = find_opt(&g.options, option);
    if oi >= g.options.len() {
        gs.insert(gi, g);
        proof {
            assert(gs@ =~= gpre);
            assert(gs.deep_view() =~~= gs0);
        }
        return false;
    }
    let ghost opre = g.options@;
    let mut o = g.options.remove(oi);
    if o.layers.len() == 0 {
        g.options.insert(oi, o);
        let ghost g_fin = g;
        gs.insert(gi, g);
        proof {
            assert(g_fin.options@ =~= opre);
            assert(gs@ == gpre.remove(gi as int).insert(gi as int, g_fin));
            assert(gs.deep_view() =~~= gs0) by {
                assert forall|m: int| 0 <= m < gs@.len() && m != gi implies gs@[m] == gpre[m] by {}
                assert(g_fin.deep_view() =~~= gpre[gi as int].deep_view());
            }
        }
        return false;
    }
    let ghost lpre = o.layers.deep_view();
    let mut ld = match o.layers.pop() {
        Some(l) => l,
        None => {
            proof {
                assert(false);
            }
            return false;
        },
    };
    let ghost epre = ld.events.deep_view();
    let ghost esv = es.deep_view();
    let ghost ldcolor = ld.color@;
    let ne: usize = es.len();
    let mut j: usize = 0;
    while j < ne
        invariant
            es@.len() == ne,
            esv == es.deep_view(),
            j <= ne,
            ld.events.deep_view() =~~= epre + esv.take(j as int),
            ld.color@ == ldcolor,
        decreases ne - j,
    {
        let ghost pvec = ld.events@;
        let ghost pdv = ld.events.deep_view();
        ld.events.push(clone_piece(&es[j]));
        proof {
            assert(esv.take(j as int + 1) =~= esv.take(j as int).push(esv[j as int]));
            assert(esv[j as int] == es@[j as int]@);
            assert(ld.events.deep_view() =~~= pdv.push(es@[j as int]@)) by {
                assert forall|m: int| 0 <= m < ld.events@.len() implies ld.events.deep_view()[m]
                    == (if m < pvec.len() { pvec[m]@ } else { es@[j as int]@ }) by {
                    assert(ld.events.deep_view()[m] == ld.events@[m]@);
                    if m < pvec.len() {
                        assert(ld.events@[m] == pvec[m]);
                    }
                }
                assert forall|m: int| 0 <= m < pdv.len() implies pdv[m] == pvec[m]@ by {}
            }
            assert(ld.events.deep_view() =~~= epre + esv.take(j as int + 1));
        }
        j = j + 1;
    }
    proof {
        assert(esv.take(ne as int) =~= esv);
        assert(ld.events.deep_view() =~~= epre + esv);
    }
    let ghost ld_fin = ld;
    o.layers.push(ld);
    let ghost o_fin = o;
    g.options.insert(oi, o);
    let ghost g_fin = g;
    gs.insert(gi, g);
    proof {
        let tgt = append_events(gs0, path@, option@, esv);
        let giv = group_index(gs0, path@);
        let oiv = opt_index(gs0[giv].options, option@);
        assert(giv == gi as int);
        assert(gs0[giv] == gpre[gi as int].deep_view());
        assert(oiv == oi as int);
        assert(gs@ == gpre.remove(gi as int).insert(gi as int, g_fin));
        assert(g_fin.options@ == opre.remove(oi as int).insert(oi as int, o_fin));
        assert(o_fin.layers@ =~= opre[oi as int].layers@.drop_last().push(ld_fin));
        assert(gs.deep_view() =~~= tgt->Some_0) by {
            assert forall|m: int| 0 <= m < gs@.len() && m != gi implies gs@[m] == gpre[m] by {}
            assert(g_fin.path@ == gs0[giv].path);
            assert forall|m: int|
                0 <= m < g_fin.options@.len() && m != oi implies g_fin.options@[m]
                    == opre[m] by {}
            assert(o_fin.option@ == gs0[giv].options[oiv].option);
            assert(o_fin.layers.deep_view() =~~= gs0[giv].options[oiv].layers.update(
                gs0[giv].options[oiv].layers.len() - 1,
                LayerDocView {
                    color: gs0[giv].options[oiv].layers.last().color,
                    events: gs0[giv].options[oiv].layers.last().events + esv,
                },
            )) by {
                assert(lpre == gs0[giv].options[oiv].layers) by {
                    assert(opre[oi as int].deep_view() == gs0[giv].options[oiv]);
                }
                assert(ld_fin.deep_view() =~~= (LayerDocView {
                    color: lpre.last().color,
                    events: lpre.last().events + esv,
                })) by {
                    assert(epre == lpre.last().events);
                    assert(ld_fin.color@ == lpre.last().color);
                }
                assert forall|m: int|
                    0 <= m < o_fin.layers@.len() - 1 implies o_fin.layers@[m]
                        == opre[oi as int].layers@[m] by {}
            }
            assert(g_fin.deep_view() =~~= tgt->Some_0[gi as int]);
        }
    }
    true
}


/// Open a layer for (path, option, colour) with the given initial document
/// events, creating the path and option groups in order of first appearance;
/// nothing changes when the group's last layer already has this colour.
fn start_layer_exec(
    gs: &mut Vec<PathGroup>,
    path: &Vec<u8>,
    option: &Vec<u8>,
    color: Vec<u8>,
    doc: Vec<XmlPiece>,
)
    ensures
        final(gs).deep_view() == start_layer(
            old(gs).deep_view(),
            path@,
            option@,
            color@,
            doc.deep_view(),
        ),
{
    let ghost gs0 = gs.deep_view();
    let ghost colorv = color@;
    let ghost docv = doc.deep_view();
    let gi = find_group(gs, path);
    if gi >= gs.len() {
        let nl = LayerDoc { color, events: doc };
        let mut layers: Vec<LayerDoc> = Vec::new();
        layers.push(nl);
        let o = OptGroup { option: crate::text::clone_bytes(option), layers };
        let mut options: Vec<OptGroup> = Vec::new();
        options.push(o);
        let ghost gplen = gs@.len();
        gs.push(PathGroup { path: crate::text::clone_bytes(path), options });
        proof {
            let tgt = start_layer(gs0, path@, option@, colorv, docv);
            assert(gs.deep_view() =~~= tgt) by {
                assert forall|m: int| 0 <= m < gplen implies gs.deep_view()[m] == gs0[m] by {
                    assert(gs.deep_view()[m] == gs@[m].deep_view());
                    assert(gs0[m] == old(gs)@[m].deep_view());
                    assert(gs@[m] == old(gs)@[m]);
                }
                assert(gs.deep_view()[gplen as int] =~~= tgt[gplen as int]);
            }
        }
        return ;
    }
    let ghost gpre = gs@;
    let mut g = gs.remove(gi);
    let oi = find_opt(&g.options, option);
    if oi >= g.options.len() {
        let nl = LayerDoc { color, events: doc };
        let mut layers: Vec<LayerDoc> = Vec::new();
        layers.push(nl);
        let ghost olen = g.options@.len();
        let ghost opre2 = g.options@;
        g.options.push(OptGroup { option: crate::text::clone_bytes(option), layers });
        let ghost g_fin = g;
        gs.insert(gi, g);
        proof {
            let tgt = start_layer(gs0, path@, option@, colorv, docv);
            assert(gs@ == gpre.remove(gi as int).insert(gi as int, g_fin));
            assert(gs.deep_view() =~~= tgt) by {
                assert forall|m: int| 0 <= m < gs@.len() && m != gi implies gs@[m] == gpre[m] by {}
                assert(g_fin.deep_view() =~~= tgt[gi as int]) by {
                    assert forall|m: int| 0 <= m < olen implies g_fin.options@[m]
                        == opre2[m] by {}
                    assert(g_fin.options.deep_view()[olen as int] =~~= tgt[gi as int].options[olen as int]);
                }
            }
        }
        return ;
    }
    let ghost opre = g.options@;
    let mut o = g.options.remove(oi);
    let push_new: bool = if o.layers.len() == 0 {
        true
    } else {
        let li: usize = o.layers.len() - 1;
        !crate::text::bytes_eq(&o.layers[li].color, &color)
    };
    let ghost lpre = o.layers@;
    if push_new {
        o.layers.push(LayerDoc { color, events: doc });
    }
    let ghost o_fin = o;
    g.options.insert(oi, o);
    let ghost g_fin = g;
    gs.insert(gi, g);
    proof {
        let tgt = start_layer(gs0, path@, option@, colorv, docv);
        let gv = gs0[gi as int];
        let ov = gv.options[oi as int];
        assert(gv == gpre[gi as int].deep_view());
        assert(ov == opre[oi as int].deep_view());
        assert(lpre.len() > 0 ==> lpre[lpre.len() - 1].deep_view() == ov.layers.last());
        assert(push_new == (ov.layers.len() == 0 || ov.layers.last().color != colorv));
        assert(gs@ == gpre.remove(gi as int).insert(gi as int, g_fin));
        assert(g_fin.options@ == opre.remove(oi as int).insert(oi as int, o_fin));
        assert(gs.deep_view() =~~= tgt) by {
            assert forall|m: int| 0 <= m < gs@.len() && m != gi implies gs@[m] == gpre[m] by {}
            assert forall|m: int|
                0 <= m < g_fin.options@.len() && m != oi implies g_fin.options@[m]
                    == opre[m] by {}
            if push_new {
                assert forall|m: int| 0 <= m < lpre.len() implies o_fin.layers@[m]
                    == lpre[m] by {}
                assert(o_fin.layers.deep_view()[lpre.len() as int] =~~= (LayerDocView {
                    color: colorv,
                    events: docv,
                }));
                assert(o_fin.deep_view() =~~= (OptGroupView {
                    option: ov.option,
                    layers: ov.layers.push(LayerDocView { color: colorv, events: docv }),
                }));
            } else {
                assert(o_fin.deep_view() =~~= ov);
            }
            assert(g_fin.deep_view() =~~= tgt[gi as int]);
        }
    }
}


/// The state of the emission pass.
pub struct EmitState {
    pub depth: int,
    pub bad: bool,
    pub bad_depth: int,
    pub use_solved: bool,
    pub path: Seq<u8>,
    pub option: Seq<u8>,
    pub g1: Seq<(Seq<u8>, Seq<u8>)>,
    pub g2: Seq<(Seq<u8>, Seq<u8>)>,
    pub groups: Seq<PathGroupView>,
    pub err: Option<SplitError>,
}

pub open spec fn emit_init() -> EmitState {
    EmitState {
        depth: 0,
        bad: false,
        bad_depth: 0,
        use_solved: false,
        path: Seq::empty(),
        option: Seq::empty(),
        g1: Seq::empty(),
        g2: Seq::empty(),
        groups: Seq::empty(),
        err: None,
    }
}

/// The start of a new self-contained layer document: the root `svg` element
/// with the original root attributes and the current namespace bindings, the
/// captured `defs` content, and the three wrapping groups (path, option and
/// colour attributes, each without `style`).
pub open spec fn layer_doc_head(
    rootattrs: Seq<(Seq<u8>, Seq<u8>)>,
    ns: Seq<(Seq<u8>, Seq<u8>)>,
    defs: Seq<PieceView>,
    g1: Seq<(Seq<u8>, Seq<u8>)>,
    g2: Seq<(Seq<u8>, Seq<u8>)>,
    g3: Seq<(Seq<u8>, Seq<u8>)>,
) -> Seq<PieceView> {
    seq![PieceView::Start { name: ("svg").spec_bytes(), attrs: rootattrs, ns: ns }] + defs + seq![
        PieceView::Start { name: ("g").spec_bytes(), attrs: g1, ns: Seq::empty() },
        PieceView::Start { name: ("g").spec_bytes(), attrs: g2, ns: Seq::empty() },
        PieceView::Start { name: ("g").spec_bytes(), attrs: g3, ns: Seq::empty() },
    ]
}

/// One event of the emission pass. Depth-1 groups name the destination path
/// (trimmed, lower-cased, no traversal sequences), depth-2 groups the option
/// key, depth-3 groups the colour option and the start of a layer document;
/// deeper content is copied into the open layer with the `rect` patch applied.
/// `use` references are inlined from the fragment table where captured. A
/// depth-1 element that is not a `g` group, or any group whose label starts
/// with `_` or `+`, opens a skipped branch until its closing tag.
pub open spec fn emit_step(
    st: EmitState,
    rootattrs: Seq<(Seq<u8>, Seq<u8>)>,
    defs: Seq<PieceView>,
    frags: Seq<FragView>,
    e: PieceView,
) -> EmitState {
    if st.err is Some {
        st
    } else {
        match e {
            PieceView::Start { name, attrs, ns } => {
                let local = local_name_spec(name);
                let label = find_attr(attrs, ("label").spec_bytes());
                let bad_now = !st.bad && ((st.depth == 1 && local != ("g").spec_bytes()) || (
                match label {
                    Some(v) => v.len() > 0 && (v[0] == 95 || v[0] == 43),
                    None => false,
                }));
                let st0 = if bad_now {
                    EmitState { bad: true, bad_depth: st.depth, ..st }
                } else {
                    st
                };
                let st1 = if st0.bad {
                    st0
                } else if local == ("use").spec_bytes() {
                    match find_attr(attrs, ("href").spec_bytes()) {
                        None => EmitState { err: Some(SplitError::MissingUseTarget), ..st0 },
                        Some(href) => if href.len() == 0 {
                            EmitState { err: Some(SplitError::MissingUseTarget), ..st0 }
                        } else {
                            let id = href.drop_first();
                            let k = frag_index(frags, id);
                            if k < frags.len() {
                                let evs = seq![
                                    PieceView::Start {
                                        name: ("g").spec_bytes(),
                                        attrs: strip_attr(attrs, ("href").spec_bytes()),
                                        ns: ns,
                                    },
                                ] + frags[k].events + seq![
                                    PieceView::End { name: ("g").spec_bytes() },
                                ];
                                match append_events(st0.groups, st0.path, st0.option, evs) {
                                    Some(gs) => EmitState {
                                        groups: gs,
                                        use_solved: true,
                                        ..st0
                                    },
                                    None => EmitState {
                                        err: Some(SplitError::DanglingContent),
                                        ..st0
                                    },
                                }
                            } else {
                                match append_events(
                                    st0.groups,
                                    st0.path,
                                    st0.option,
                                    seq![PieceView::Start { name: name, attrs: attrs, ns: ns }],
                                ) {
                                    Some(gs) => EmitState {
                                        groups: gs,
                                        use_solved: false,
                                        ..st0
                                    },
                                    None => EmitState {
                                        err: Some(SplitError::DanglingContent),
                                        ..st0
                                    },
                                }
                            }
                        },
                    }
                } else if st0.depth == 1 && local == ("g").spec_bytes() {
                    match label {
                        None => EmitState { err: Some(SplitError::MissingPathLabel), ..st0 },
                        Some(v) => {
                            let p = crate::text::lower_seq(crate::text::trim_spec(v));
                            if crate::text::contains_pair(p, 46, 47) || crate::text::contains_pair(
                                p,
                                46,
                                92,
                            ) {
                                EmitState { err: Some(SplitError::InvalidPath), ..st0 }
                            } else {
                                EmitState {
                                    path: p,
                                    g1: strip_attr(attrs, ("style").spec_bytes()),
                                    ..st0
                                }
                            }
                        },
                    }
                } else if st0.depth == 2 && local == ("g").spec_bytes() {
                    match label {
                        None => EmitState { err: Some(SplitError::MissingOptionLabel), ..st0 },
                        Some(v) => EmitState {
                            option: crate::text::trim_spec(v),
                            g2: strip_attr(attrs, ("style").spec_bytes()),
                            ..st0
                        },
                    }
                } else if st0.depth == 3 && local == ("g").spec_bytes() {
                    match label {
                        None => EmitState { err: Some(SplitError::MissingColorLabel), ..st0 },
                        Some(v) => {
                            let color = crate::text::trim_spec(v);
                            let doc = layer_doc_head(
                                rootattrs,
                                ns,
                                defs,
                                st0.g1,
                                st0.g2,
                                strip_attr(attrs, ("style").spec_bytes()),
                            );
                            EmitState {
                                groups: start_layer(st0.groups, st0.path, st0.option, color, doc),
                                ..st0
                            }
                        },
                    }
                } else if st0.depth >= 4 {
                    match append_events(
                        st0.groups,
                        st0.path,
                        st0.option,
                        seq![
                            PieceView::Start {
                                name: name,
                                attrs: patch_attrs_spec(name, attrs),
                                ns: ns,
                            },
                        ],
                    ) {
                        Some(gs) => EmitState { groups: gs, ..st0 },
                        None => EmitState { err: Some(SplitError::DanglingContent), ..st0 },
                    }
                } else {
                    st0
                };
                if st1.err is Some {
                    st1
                } else {
                    EmitState { depth: st1.depth + 1, ..st1 }
                }
            },
            PieceView::End { name } => {
                let local = local_name_spec(name);
                let st0 = EmitState { depth: st.depth - 1, ..st };
                let st1 = if st.bad {
                    st0
                } else if local == ("use").spec_bytes() {
                    if !st0.use_solved {
                        match append_events(
                            st0.groups,
                            st0.path,
                            st0.option,
                            seq![PieceView::End { name: name }],
                        ) {
                            Some(gs) => EmitState { groups: gs, ..st0 },
                            None => EmitState { err: Some(SplitError::DanglingContent), ..st0 },
                        }
                    } else {
                        st0
                    }
                } else if st0.depth == 1 && local == ("g").spec_bytes() {
                    EmitState { path: Seq::empty(), ..st0 }
                } else if st0.depth == 2 && local == ("g").spec_bytes() {
                    EmitState { option: Seq::empty(), ..st0 }
                } else if st0.depth >= 4 {
                    match append_events(
                        st0.groups,
                        st0.path,
                        st0.option,
                        seq![PieceView::End { name: name }],
                    ) {
                        Some(gs) => EmitState { groups: gs, ..st0 },
                        None => EmitState { err: Some(SplitError::DanglingContent), ..st0 },
                    }
                } else {
                    st0
                };
                if st1.err is Some {
                    st1
                } else if st1.depth == st1.bad_depth {
                    EmitState { bad: false, ..st1 }
                } else {
                    st1
                }
            },
            PieceView::Text { content } => {
                if st.depth >= 4 {
                    match append_events(
                        st.groups,
                        st.path,
                        st.option,
                        seq![PieceView::Text { content: content }],
                    ) {
                        Some(gs) => EmitState { groups: gs, ..st },
                        None => st,
                    }
                } else {
                    st
                }
            },
        }
    }
}

/// The emission pass over a whole event stream.
pub open spec fn emit_fold(
    events: Seq<PieceView>,
    rootattrs: Seq<(Seq<u8>, Seq<u8>)>,
    defs: Seq<PieceView>,
    frags: Seq<FragView>,
) -> EmitState
    decreases events.len(),
{
    if events.len() == 0 {
        emit_init()
    } else {
        emit_step(
            emit_fold(events.drop_last(), rootattrs, defs, frags),
            rootattrs,
            defs,
            frags,
            events.last(),
        )
    }
}

proof fn lemma_emit_fold_step(
    events: Seq<PieceView>,
    rootattrs: Seq<(Seq<u8>, Seq<u8>)>,
    defs: Seq<PieceView>,
    frags: Seq<FragView>,
    i: int,
)
    requires
        0 <= i < events.len(),
    ensures
        emit_fold(events.take(i + 1), rootattrs, defs, frags) == emit_step(
            emit_fold(events.take(i), rootattrs, defs, frags),
            rootattrs,
            defs,
            frags,
            events[i],
        ),
{
    assert(events.take(i + 1).drop_last() =~= events.take(i));
    assert(events.take(i + 1).last() == events[i]);
}

proof fn lemma_emit_halt(
    events: Seq<PieceView>,
    rootattrs: Seq<(Seq<u8>, Seq<u8>)>,
    defs: Seq<PieceView>,
    frags: Seq<FragView>,
    i: int,
)
    requires
        0 <= i <= events.len(),
        emit_fold(events.take(i), rootattrs, defs, frags).err is Some,
    ensures
        emit_fold(events, rootattrs, defs, frags) == emit_fold(
            events.take(i),
            rootattrs,
            defs,
            frags,
        ),
    decreases events.len() - i,
{
    if i < events.len() {
        lemma_emit_fold_step(events, rootattrs, defs, frags, i);
        lemma_emit_halt(events, rootattrs, defs, frags, i + 1);
    } else {
        assert(events.take(i) =~= events);
    }
}


/// Whether an event is the start of an `svg` element.
pub open spec fn is_svg_start(e: PieceView) -> bool {
    e matches PieceView::Start { name, .. } && local_name_spec(name) == ("svg").spec_bytes()
}

/// The attributes of the last `svg` start tag in the stream, or none.
pub open spec fn root_attrs_of(events: Seq<PieceView>) -> Seq<(Seq<u8>, Seq<u8>)>
    decreases events.len(),
{
    if events.len() == 0 {
        Seq::empty()
    } else if is_svg_start(events.last()) {
        events.last()->Start_attrs
    } else {
        root_attrs_of(events.drop_last())
    }
}

proof fn lemma_root_attrs_take(events: Seq<PieceView>, k: int)
    requires
        0 <= k <= events.len(),
        forall|j: int| k <= j < events.len() ==> !is_svg_start(#[trigger] events[j]),
    ensures
        root_attrs_of(events) == root_attrs_of(events.take(k)),
    decreases events.len() - k,
{
    if k < events.len() {
        lemma_root_attrs_take(events, k + 1);
        assert(events.take(k + 1).drop_last() =~= events.take(k));
        assert(events.take(k + 1).last() == events[k]);
    } else {
        assert(events.take(k) =~= events);
    }
}

/// The attributes of the last `svg` start tag in the document (the original
/// root attributes the layer documents re-wrap).
pub fn scan_root_attrs(events: &Vec<XmlPiece>) -> (r: Vec<Attr>)
    ensures
        r.deep_view() == root_attrs_of(events.deep_view()),
{
    let ghost evs = events.deep_view();
    let n: usize = events.len();
    let mut k: usize = n;
    while k > 0
        invariant
            events@.len() == n,
            evs == events.deep_view(),
            k <= n,
            forall|j: int| k <= j < n ==> !is_svg_start(#[trigger] evs[j]),
        decreases k,
    {
        match &events[k - 1] {
            XmlPiece::Start { name, attrs, ns } => {
                let ln = local_name(name);
                if crate::text::eq_lit(&ln, "svg") {
                    proof {
                        lemma_root_attrs_take(evs, k as int);
                        assert(evs.take(k as int).last() == evs[k - 1]);
                        assert(is_svg_start(evs[k - 1]));
                        assert(evs.take(k as int).drop_last() =~= evs.take(k - 1));
                    }
                    return clone_attrs(attrs);
                }
            },
            _ => {},
        }
        proof {
            assert(!is_svg_start(evs[k - 1]));
        }
        k = k - 1;
    }
    proof {
        lemma_root_attrs_take(evs, 0);
        assert(evs.take(0) =~= Seq::<PieceView>::empty());
    }
    Vec::new()
}

/// The inlined form of a resolved `use` reference: a wrapping `g` carrying the
/// reference's attributes minus `href`, the captured fragment's events, and
/// the closing tag.
fn build_use_inline(attrs: &Vec<Attr>, ns: &Vec<Attr>, frags: &Vec<Fragment>, fi: usize) -> (r:
    Vec<XmlPiece>)
    requires
        fi < frags@.len(),
    ensures
        r.deep_view() == seq![
            PieceView::Start {
                name: ("g").spec_bytes(),
                attrs: strip_attr(attrs.deep_view(), ("href").spec_bytes()),
                ns: ns.deep_view(),
            },
        ] + frags.deep_view()[fi as int].events + seq![
            PieceView::End { name: ("g").spec_bytes() },
        ],
{
    let mut evs2: Vec<XmlPiece> = Vec::new();
    push_event(
        &mut evs2,
        XmlPiece::Start {
            name: crate::text::lit_bytes("g"),
            attrs: strip_attr_exec(attrs, "href"),
            ns: clone_attrs(ns),
        },
    );
    let ghost head = evs2.deep_view();
    let fe: usize = frags[fi].events.len();
    let mut m: usize = 0;
    while m < fe
        invariant
            fi < frags@.len(),
            frags@[fi as int].events@.len() == fe,
            m <= fe,
            evs2.deep_view() =~~= head + frags.deep_view()[fi as int].events.take(m as int),
        decreases fe - m,
    {
        push_event(&mut evs2, clone_piece(&frags[fi].events[m]));
        proof {
            assert(frags.deep_view()[fi as int].events[m as int] == frags@[fi as int].events@[m as int]@);
            assert(evs2.deep_view() =~~= head + frags.deep_view()[fi as int].events.take(
                m as int + 1,
            ));
        }
        m = m + 1;
    }
    push_event(&mut evs2, XmlPiece::End { name: crate::text::lit_bytes("g") });
    proof {
        assert(frags.deep_view()[fi as int].events.take(fe as int) =~= frags.deep_view()[fi as int].events);
        assert(evs2.deep_view() =~~= seq![
            PieceView::Start {
                name: ("g").spec_bytes(),
                attrs: strip_attr(attrs.deep_view(), ("href").spec_bytes()),
                ns: ns.deep_view(),
            },
        ] + frags.deep_view()[fi as int].events + seq![
            PieceView::End { name: ("g").spec_bytes() },
        ]);
    }
    evs2
}

/// The head of a new layer document: root `svg` element, captured `defs`
/// content, and the three wrapping groups.
fn build_layer_head(
    rootattrs: &Vec<Attr>,
    ns: &Vec<Attr>,
    defs: &Vec<XmlPiece>,
    g1: &Vec<Attr>,
    g2: &Vec<Attr>,
    attrs: &Vec<Attr>,
) -> (r: Vec<XmlPiece>)
    ensures
        r.deep_view() == layer_doc_head(
            rootattrs.deep_view(),
            ns.deep_view(),
            defs.deep_view(),
            g1.deep_view(),
            g2.deep_view(),
            strip_attr(attrs.deep_view(), ("style").spec_bytes()),
        ),
{
    let ghost dfv = defs.deep_view();
    let mut doc: Vec<XmlPiece> = Vec::new();
    push_event(
        &mut doc,
        XmlPiece::Start {
            name: crate::text::lit_bytes("svg"),
            attrs: clone_attrs(rootattrs),
            ns: clone_attrs(ns),
        },
    );
    let ghost dhead = doc.deep_view();
    let nd: usize = defs.len();
    let mut m: usize = 0;
    while m < nd
        invariant
            defs@.len() == nd,
            dfv == defs.deep_view(),
            m <= nd,
            doc.deep_view() =~~= dhead + dfv.take(m as int),
        decreases nd - m,
    {
        push_event(&mut doc, clone_piece(&defs[m]));
        proof {
            assert(dfv[m as int] == defs@[m as int]@);
            assert(doc.deep_view() =~~= dhead + dfv.take(m as int + 1));
        }
        m = m + 1;
    }
    push_event(
        &mut doc,
        XmlPiece::Start { name: crate::text::lit_bytes("g"), attrs: clone_attrs(g1), ns: Vec::new() },
    );
    push_event(
        &mut doc,
        XmlPiece::Start { name: crate::text::lit_bytes("g"), attrs: clone_attrs(g2), ns: Vec::new() },
    );
    push_event(
        &mut doc,
        XmlPiece::Start {
            name: crate::text::lit_bytes("g"),
            attrs: strip_attr_exec(attrs, "style"),
            ns: Vec::new(),
        },
    );
    proof {
        assert(dfv.take(nd as int) =~= dfv);
        assert(doc.deep_view() =~~= layer_doc_head(
            rootattrs.deep_view(),
            ns.deep_view(),
            dfv,
            g1.deep_view(),
            g2.deep_view(),
            strip_attr(attrs.deep_view(), ("style").spec_bytes()),
        ));
    }
    doc
}

/// The emission pass: walk the events with the capture results at hand and
/// accumulate the per-(path, option) layer documents. Returns the groups in
/// order of first appearance, or the error of the fold.
#[verifier::rlimit(100)]
pub fn emit(
    events: &Vec<XmlPiece>,
    rootattrs: &Vec<Attr>,
    defs: &Vec<XmlPiece>,
    frags: &Vec<Fragment>,
) -> (r: Result<Vec<PathGroup>, SplitError>)
    ensures
        ({
            let st = emit_fold(
                events.deep_view(),
                rootattrs.deep_view(),
                defs.deep_view(),
                frags.deep_view(),
            );
            match r {
                Ok(gs) => st.err is None && gs.deep_view() == st.groups,
                Err(e) => st.err == Some(e),
            }
        }),
{
    let ghost evs = events.deep_view();
    let ghost rav = rootattrs.deep_view();
    let ghost dfv = defs.deep_view();
    let ghost frv = frags.deep_view();
    let n: usize = events.len();
    let mut depth: i128 = 0;
    let mut bad: bool = false;
    let mut bad_depth: i128 = 0;
    let mut use_solved: bool = false;
    let mut path: Vec<u8> = Vec::new();
    let mut option: Vec<u8> = Vec::new();
    let mut g1: Vec<Attr> = Vec::new();
    let mut g2: Vec<Attr> = Vec::new();
    let mut groups: Vec<PathGroup> = Vec::new();
    let mut i: usize = 0;
    while i < n
        invariant
            events@.len() == n,
            evs == events.deep_view(),
            rav == rootattrs.deep_view(),
            dfv == defs.deep_view(),
            frv == frags.deep_view(),
            i <= n,
            -(i as int) <= depth <= i as int,
            ({
                let st = emit_fold(evs.take(i as int), rav, dfv, frv);
                &&& st.err is None
                &&& st.depth == depth as int
                &&& st.bad == bad
                &&& st.bad_depth == bad_depth as int
                &&& st.use_solved == use_solved
                &&& st.path == path@
                &&& st.option == option@
                &&& st.g1 == g1.deep_view()
                &&& st.g2 == g2.deep_view()
                &&& st.groups == groups.deep_view()
            }),
        decreases n - i,
    {
        proof {
            lemma_emit_fold_step(evs, rav, dfv, frv, i as int);
            assert(evs[i as int] == events@[i as int]@);
        }
        let ghost st_pre = emit_fold(evs.take(i as int), rav, dfv, frv);
        let ghost st_post = emit_step(st_pre, rav, dfv, frv, evs[i as int]);
        match &events[i] {
            XmlPiece::Start { name, attrs, ns } => {
                let ln = local_name(name);
                let label = find_attr_value(attrs, "label");
                let bad_now: bool = !bad && ((depth == 1 && !crate::text::eq_lit(&ln, "g")) || (
                match &label {
                    Some(v) => v.len() > 0 && (v[0] == 95 || v[0] == 43),
                    None => false,
                }));
                if bad_now {
                    bad = true;
                    bad_depth = depth;
                }
                if bad {
                    depth = depth + 1;
                } else if crate::text::eq_lit(&ln, "use") {
                    let href = match find_attr_value(attrs, "href") {
                        Some(h) => h,
                        None => {
                            proof {
                                lemma_emit_halt(evs, rav, dfv, frv, i as int + 1);
                            }
                            return Err(SplitError::MissingUseTarget);
                        },
                    };
                    if href.len() == 0 {
                        proof {
                            lemma_emit_halt(evs, rav, dfv, frv, i as int + 1);
                        }
                        return Err(SplitError::MissingUseTarget);
                    }
                    let mut id: Vec<u8> = Vec::new();
                    let mut q: usize = 1;
                    while q < href.len()
                        invariant
                            1 <= q <= href@.len(),
                            id@ =~= href@.subrange(1, q as int),
                        decreases href@.len() - q,
                    {
                        id.push(href[q]);
                        proof {
                            assert(id@ =~= href@.subrange(1, q as int + 1));
                        }
                        q = q + 1;
                    }
                    proof {
                        assert(id@ =~= href@.drop_first());
                    }
                    let fi = find_fragment(frags, &id);
                    if fi < frags.len() {
                        let evs2 = build_use_inline(attrs, ns, frags, fi);
                        let ok = append_events_exec(&mut groups, &path, &option, evs2);
                        if !ok {
                            proof {
                                lemma_emit_halt(evs, rav, dfv, frv, i as int + 1);
                            }
                            return Err(SplitError::DanglingContent);
                        }
                        use_solved = true;
                        depth = depth + 1;
                    } else {
                        let mut evs2: Vec<XmlPiece> = Vec::new();
                        push_event(&mut evs2, clone_piece(&events[i]));
                        proof {
                            assert(evs2.deep_view() =~~= seq![evs[i as int]]);
                        }
                        let ok = append_events_exec(&mut groups, &path, &option, evs2);
                        if !ok {
                            proof {
                                lemma_emit_halt(evs, rav, dfv, frv, i as int + 1);
                            }
                            return Err(SplitError::DanglingContent);
                        }
                        use_solved = false;
                        depth = depth + 1;
                    }
                } else if depth == 1 && crate::text::eq_lit(&ln, "g") {
                    let v = match label {
                        Some(v) => v,
                        None => {
                            proof {
                                lemma_emit_halt(evs, rav, dfv, frv, i as int + 1);
                            }
                            return Err(SplitError::MissingPathLabel);
                        },
                    };
                    let trimmed = crate::text::trim_bytes(&v);
                    let p = crate::text::lower_bytes(&trimmed);
                    if crate::text::has_pair(&p, 46, 47) || crate::text::has_pair(&p, 46, 92) {
                        proof {
                            lemma_emit_halt(evs, rav, dfv, frv, i as int + 1);
                        }
                        return Err(SplitError::InvalidPath);
                    }
                    path = p;
                    g1 = strip_attr_exec(attrs, "style");
                    depth = depth + 1;
                } else if depth == 2 && crate::text::eq_lit(&ln, "g") {
                    let v = match label {
                        Some(v) => v,
                        None => {
                            proof {
                                lemma_emit_halt(evs, rav, dfv, frv, i as int + 1);
                            }
                            return Err(SplitError::MissingOptionLabel);
                        },
                    };
                    option = crate::text::trim_bytes(&v);
                    g2 = strip_attr_exec(attrs, "style");
                    depth = depth + 1;
                } else if depth == 3 && crate::text::eq_lit(&ln, "g") {
                    let v = match label {
                        Some(v) => v,
                        None => {
                            proof {
                                lemma_emit_halt(evs, rav, dfv, frv, i as int + 1);
                            }
                            return Err(SplitError::MissingColorLabel);
                        },
                    };
                    let color = crate::text::trim_bytes(&v);
                    let doc = build_layer_head(rootattrs, ns, defs, &g1, &g2, attrs);
                    start_layer_exec(&mut groups, &path, &option, color, doc);
                    depth = depth + 1;
                } else if depth >= 4 {
                    let mut evs2: Vec<XmlPiece> = Vec::new();
                    push_event(
                        &mut evs2,
                        XmlPiece::Start {
                            name: crate::text::clone_bytes(name),
                            attrs: patch_attributes(name, attrs),
                            ns: clone_attrs(ns),
                        },
                    );
                    proof {
                        assert(evs2.deep_view() =~~= seq![
                            PieceView::Start {
                                name: name@,
                                attrs: patch_attrs_spec(name@, attrs.deep_view()),
                                ns: ns.deep_view(),
                            },
                        ]);
                    }
                    let ok = append_events_exec(&mut groups, &path, &option, evs2);
                    if !ok {
                        proof {
                            lemma_emit_halt(evs, rav, dfv, frv, i as int + 1);
                        }
                        return Err(SplitError::DanglingContent);
                    }
                    depth = depth + 1;
                } else {
                    depth = depth + 1;
                }
            },
            XmlPiece::End { name } => {
                let ln = local_name(name);
                let was_bad = bad;
                depth = depth - 1;
                if !was_bad {
                    if crate::text::eq_lit(&ln, "use") {
                        if !use_solved {
                            let mut evs2: Vec<XmlPiece> = Vec::new();
                            push_event(&mut evs2, XmlPiece::End { name: crate::text::clone_bytes(name) });
                            proof {
                                assert(evs2.deep_view() =~~= seq![
                                    PieceView::End { name: name@ },
                                ]);
                            }
                            let ok = append_events_exec(&mut groups, &path, &option, evs2);
                            if !ok {
                                proof {
                                    lemma_emit_halt(evs, rav, dfv, frv, i as int + 1);
                                }
                                return Err(SplitError::DanglingContent);
                            }
                        }
                    } else if depth == 1 && crate::text::eq_lit(&ln, "g") {
                        path = Vec::new();
                        proof {
                            assert(path@ =~= Seq::<u8>::empty());
                        }
                    } else if depth == 2 && crate::text::eq_lit(&ln, "g") {
                        option = Vec::new();
                        proof {
                            assert(option@ =~= Seq::<u8>::empty());
                        }
                    } else if depth >= 4 {
                        let mut evs2: Vec<XmlPiece> = Vec::new();
                        push_event(&mut evs2, XmlPiece::End { name: crate::text::clone_bytes(name) });
                        proof {
                            assert(evs2.deep_view() =~~= seq![PieceView::End { name: name@ }]);
                        }
                        let ok = append_events_exec(&mut groups, &path, &option, evs2);
                        if !ok {
                            proof {
                                lemma_emit_halt(evs, rav, dfv, frv, i as int + 1);
                            }
                            return Err(SplitError::DanglingContent);
                        }
                    }
                }
                if depth == bad_depth {
                    bad = false;
                }
            },
            XmlPiece::Text { content } => {
                if depth >= 4 {
                    let mut evs2: Vec<XmlPiece> = Vec::new();
                    push_event(
                        &mut evs2,
                        XmlPiece::Text { content: crate::text::clone_bytes(content) },
                    );
                    proof {
                        assert(evs2.deep_view() =~~= seq![
                            PieceView::Text { content: content@ },
                        ]);
                    }
                    let _ok = append_events_exec(&mut groups, &path, &option, evs2);
                }
            },
        }
        i = i + 1;
    }
    proof {
        assert(evs.take(n as int) =~= evs);
    }
    Ok(groups)
}

/// The first fragment entry with the given id, or the entry count.
fn find_fragment(fs: &Vec<Fragment>, id: &Vec<u8>) -> (r: usize)
    ensures
        r as int == frag_index(fs.deep_view(), id@),
        r <= fs@.len(),
{
    let n: usize = fs.len();
    let mut k: usize = 0;
    while k < n
        invariant
            fs@.len() == n,
            k <= n,
            forall|j: int| 0 <= j < k ==> (#[trigger] fs.deep_view()[j]).id != id@,
        decreases n - k,
    {
        if crate::text::bytes_eq(&fs[k].id, id) {
            proof {
                assert(fs.deep_view()[k as int] == fs@[k as int].deep_view());
                lemma_frag_index_at(fs.deep_view(), id@, k as int);
            }
            return k;
        }
        proof {
            assert(fs.deep_view()[k as int] == fs@[k as int].deep_view());
        }
        k = k + 1;
    }
    proof {
        lemma_frag_index_at(fs.deep_view(), id@, n as int);
    }
    n
}


/// The closing tags appended to every layer document: the three wrapping
/// groups and the root element.
pub open spec fn closing_events() -> Seq<PieceView> {
    seq![
        PieceView::End { name: ("g").spec_bytes() },
        PieceView::End { name: ("g").spec_bytes() },
        PieceView::End { name: ("g").spec_bytes() },
        PieceView::End { name: ("svg").spec_bytes() },
    ]
}

/// One finished layer: its colour option (none when the trimmed label is
/// empty) and the closed document's text.
pub open spec fn layer_out(l: LayerDocView) -> (Option<Seq<u8>>, Seq<u8>) {
    (
        if crate::text::trim_spec(l.color).len() == 0 {
            None
        } else {
            Some(l.color)
        },
        crate::markup::doc_text(l.events + closing_events()),
    )
}

pub open spec fn layers_out(ls: Seq<LayerDocView>) -> Seq<(Option<Seq<u8>>, Seq<u8>)> {
    Seq::new(ls.len(), |i: int| layer_out(ls[i]))
}

/// One alias of an option key: none when the trimmed part is empty, else the
/// (option, sub-option) pair around the first colon; a part without a colon
/// names no sub-option.
pub open spec fn option_key(part: Seq<u8>) -> Result<Option<(Seq<u8>, Seq<u8>)>, SplitError> {
    if crate::text::trim_spec(part).len() == 0 {
        Ok(None)
    } else {
        let ps = crate::text::split_seq(part, 58);
        if ps.len() < 2 {
            Err(SplitError::MissingSubOption)
        } else {
            Ok(Some((ps[0], ps[1])))
        }
    }
}

/// The outputs of one option group: one per semicolon-separated alias of the
/// option key, sharing the group's layers.
pub open spec fn parts_results(
    path: Seq<u8>,
    lo: Seq<(Option<Seq<u8>>, Seq<u8>)>,
    parts: Seq<Seq<u8>>,
) -> Result<Seq<ResultView>, SplitError>
    decreases parts.len(),
{
    if parts.len() == 0 {
        Ok(Seq::empty())
    } else {
        match parts_results(path, lo, parts.drop_last()) {
            Err(e) => Err(e),
            Ok(rs) => match option_key(parts.last()) {
                Err(e) => Err(e),
                Ok(k) => Ok(rs.push(ResultView { path: path, option: k, layers: lo })),
            },
        }
    }
}

pub open spec fn opts_results(path: Seq<u8>, os: Seq<OptGroupView>) -> Result<
    Seq<ResultView>,
    SplitError,
>
    decreases os.len(),
{
    if os.len() == 0 {
        Ok(Seq::empty())
    } else {
        match opts_results(path, os.drop_last()) {
            Err(e) => Err(e),
            Ok(rs) => match parts_results(
                path,
                layers_out(os.last().layers),
                crate::text::split_seq(os.last().option, 59),
            ) {
                Err(e) => Err(e),
                Ok(rs2) => Ok(rs + rs2),
            },
        }
    }
}

/// Every output of the accumulated groups, in order of first appearance.
pub open spec fn all_results(gs: Seq<PathGroupView>) -> Result<Seq<ResultView>, SplitError>
    decreases gs.len(),
{
    if gs.len() == 0 {
        Ok(Seq::empty())
    } else {
        match all_results(gs.drop_last()) {
            Err(e) => Err(e),
            Ok(rs) => match opts_results(gs.last().path, gs.last().options) {
                Err(e) => Err(e),
                Ok(rs2) => Ok(rs + rs2),
            },
        }
    }
}

/// Close one accumulated layer document and render it.
fn finish_layer(l: &LayerDoc) -> (r: (Option<Vec<u8>>, Vec<u8>))
    ensures
        r.deep_view() == layer_out(l@),
{
    let mut evd: Vec<XmlPiece> = Vec::new();
    let ne: usize = l.events.len();
    let mut m: usize = 0;
    while m < ne
        invariant
            l.events@.len() == ne,
            m <= ne,
            evd.deep_view() =~~= l.events.deep_view().take(m as int),
        decreases ne - m,
    {
        push_event(&mut evd, clone_piece(&l.events[m]));
        proof {
            assert(l.events.deep_view()[m as int] == l.events@[m as int]@);
            assert(evd.deep_view() =~~= l.events.deep_view().take(m as int + 1));
        }
        m = m + 1;
    }
    push_event(&mut evd, XmlPiece::End { name: crate::text::lit_bytes("g") });
    push_event(&mut evd, XmlPiece::End { name: crate::text::lit_bytes("g") });
    push_event(&mut evd, XmlPiece::End { name: crate::text::lit_bytes("g") });
    push_event(&mut evd, XmlPiece::End { name: crate::text::lit_bytes("svg") });
    proof {
        assert(l.events.deep_view().take(ne as int) =~= l.events.deep_view());
        assert(evd.deep_view() =~~= l.events.deep_view() + closing_events());
    }
    let text = crate::markup::doc_to_text(&evd);
    let trimmed = crate::text::trim_bytes(&l.color);
    if trimmed.len() == 0 {
        proof {
            assert(crate::text::trim_spec(l.color@).len() == 0);
        }
        (None, text)
    } else {
        (Some(crate::text::clone_bytes(&l.color)), text)
    }
}

/// Render the outputs of the accumulated groups: every (path, option alias)
/// with its finished layer documents.
fn finalize(groups: &Vec<PathGroup>) -> (r: Result<Vec<SvgResult>, SplitError>)
    ensures
        match r {
            Ok(rs) => all_results(groups.deep_view()) == Ok::<Seq<ResultView>, SplitError>(rs.deep_view()),
            Err(e) => all_results(groups.deep_view()) == Err::<Seq<ResultView>, SplitError>(e),
        },
{
    let ghost gsv = groups.deep_view();
    let mut results: Vec<SvgResult> = Vec::new();
    proof {
        assert(results.deep_view() =~= Seq::<ResultView>::empty());
    }
    let ng: usize = groups.len();
    let mut gi: usize = 0;
    while gi < ng
        invariant
            groups@.len() == ng,
            gsv == groups.deep_view(),
            gi <= ng,
            all_results(gsv.take(gi as int)) is Ok,
            results.deep_view() =~= all_results(gsv.take(gi as int))->Ok_0,
        decreases ng - gi,
    {
        let g = &groups[gi];
        let ghost gv = gsv[gi as int];
        proof {
            assert(gv == groups@[gi as int].deep_view());
        }
        let no: usize = g.options.len();
        let mut oi: usize = 0;
        while oi < no
            invariant
                groups@.len() == ng,
                gsv == groups.deep_view(),
                gi < ng,
                g == &groups@[gi as int],
                gv == gsv[gi as int],
                g.options@.len() == no,
                oi <= no,
                opts_results(gv.path, gv.options.take(oi as int)) is Ok,
                all_results(gsv.take(gi as int)) is Ok,
                results.deep_view() =~= (all_results(gsv.take(gi as int))->Ok_0) + (opts_results(
                    gv.path,
                    gv.options.take(oi as int),
                )->Ok_0),
            decreases no - oi,
        {
            let o = &g.options[oi];
            let ghost ov = gv.options[oi as int];
            proof {
                assert(gv == groups@[gi as int].deep_view());
                assert(ov == g.options@[oi as int].deep_view());
            }
            let nl: usize = o.layers.len();
            let mut docs: Vec<(Option<Vec<u8>>, Vec<u8>)> = Vec::new();
            let mut li: usize = 0;
            while li < nl
                invariant
                    o.layers@.len() == nl,
                    ov == o.deep_view(),
                    li <= nl,
                    docs.deep_view() =~~= layers_out(ov.layers.take(li as int)),
                decreases nl - li,
            {
                let ghost pdocs = docs@;
                let ghost pddv = docs.deep_view();
                let d = finish_layer(&o.layers[li]);
                let ghost dv = d.deep_view();
                docs.push(d);
                proof {
                    assert(o.layers@[li as int]@ == ov.layers[li as int]);
                    assert(dv == layer_out(ov.layers[li as int]));
                    assert forall|m2: int| 0 <= m2 < docs@.len() implies docs.deep_view()[m2] == (
                    if m2 < pdocs.len() {
                        pddv[m2]
                    } else {
                        layer_out(ov.layers[li as int])
                    }) by {
                        assert(docs.deep_view()[m2] == docs@[m2].deep_view());
                        if m2 < pdocs.len() {
                            assert(docs@[m2] == pdocs[m2]);
                            assert(pddv[m2] == pdocs[m2].deep_view());
                        }
                    }
                    assert(docs.deep_view() =~~= layers_out(ov.layers.take(li as int + 1)));
                }
                li = li + 1;
            }
            proof {
                assert(ov.layers.take(nl as int) =~= ov.layers);
            }
            let parts = crate::text::split_on(&o.option, 59);
            let np: usize = parts.len();
            let mut pi: usize = 0;
            while pi < np
                invariant
                    parts@.len() == np,
                    parts.deep_view() == crate::text::split_seq(ov.option, 59),
                    ov == o.deep_view(),
                    o.option@ == ov.option,
                    docs.deep_view() =~~= layers_out(ov.layers),
                    pi <= np,
                    gv == gsv[gi as int],
                    parts_results(gv.path, layers_out(ov.layers), parts.deep_view().take(pi as int))
                        is Ok,
                    all_results(gsv.take(gi as int)) is Ok,
                    opts_results(gv.path, gv.options.take(oi as int)) is Ok,
                    ov == gv.options[oi as int],
                    gv.options.len() == no,
                    oi < no,
                    g.options@.len() == no,
                    g == &groups@[gi as int],
                    gi < ng,
                    groups@.len() == ng,
                    gsv == groups.deep_view(),
                    results.deep_view() =~= (all_results(gsv.take(gi as int))->Ok_0) + (
                    opts_results(gv.path, gv.options.take(oi as int))->Ok_0) + (parts_results(
                        gv.path,
                        layers_out(ov.layers),
                        parts.deep_view().take(pi as int),
                    )->Ok_0),
                decreases np - pi,
            {
                proof {
                    assert(parts.deep_view().take(pi as int + 1).drop_last()
                        =~= parts.deep_view().take(pi as int));
                    assert(parts.deep_view().take(pi as int + 1).last()
                        == parts.deep_view()[pi as int]);
                    assert(parts@[pi as int]@ == parts.deep_view()[pi as int]);
                }
                let part = &parts[pi];
                let trimmed = crate::text::trim_bytes(part);
                let okey: Option<(Vec<u8>, Vec<u8>)> = if trimmed.len() == 0 {
                    proof {
                        assert(crate::text::trim_spec(part@).len() == 0);
                    }
                    None
                } else {
                    let sub = crate::text::split_on(part, 58);
                    if sub.len() < 2 {
                        proof {
                            assert(option_key(parts.deep_view()[pi as int]) == Err::<
                                Option<(Seq<u8>, Seq<u8>)>,
                                SplitError,
                            >(SplitError::MissingSubOption));
                            assert(parts_results(
                                gv.path,
                                layers_out(ov.layers),
                                parts.deep_view().take(pi as int + 1),
                            ) is Err);
                            lemma_results_halt_parts(
                                gv.path,
                                layers_out(ov.layers),
                                parts.deep_view(),
                                pi as int + 1,
                            );
                            assert(gv.options.take(oi as int + 1).drop_last() =~= gv.options.take(
                                oi as int,
                            ));
                            assert(gv.options.take(oi as int + 1).last() == ov);
                            assert(opts_results(gv.path, gv.options.take(oi as int + 1)) is Err);
                            lemma_results_halt_opts(gv.path, gv.options, oi as int + 1);
                            assert(gsv.take(gi as int + 1).drop_last() =~= gsv.take(gi as int));
                            assert(gsv.take(gi as int + 1).last() == gv);
                            assert(all_results(gsv.take(gi as int + 1)) is Err);
                            lemma_results_halt_all(gsv, gi as int + 1);
                            assert(all_results(gsv) == Err::<Seq<ResultView>, SplitError>(
                                SplitError::MissingSubOption,
                            ));
                        }
                        return Err(SplitError::MissingSubOption);
                    }
                    let mut sub = sub;
                    let b = sub.remove(1);
                    let a = sub.remove(0);
                    proof {
                        assert(a@ == crate::text::split_seq(part@, 58)[0]);
                        assert(b@ == crate::text::split_seq(part@, 58)[1]);
                    }
                    Some((a, b))
                };
                let mut layers2: Vec<(Option<Vec<u8>>, Vec<u8>)> = Vec::new();
                let mut m: usize = 0;
                while m < docs.len()
                    invariant
                        m <= docs@.len(),
                        layers2@.len() == m,
                        forall|m2: int|
                            0 <= m2 < m ==> (#[trigger] layers2.deep_view()[m2])
                                == docs.deep_view()[m2],
                    decreases docs@.len() - m,
                {
                    let ghost pl = layers2@;
                    let ghost pldv = layers2.deep_view();
                    let c: Option<Vec<u8>> = match &docs[m].0 {
                        Some(cc) => Some(crate::text::clone_bytes(cc)),
                        None => None,
                    };
                    layers2.push((c, crate::text::clone_bytes(&docs[m].1)));
                    proof {
                        assert forall|m2: int|
                            0 <= m2 < m + 1 implies (#[trigger] layers2.deep_view()[m2])
                            == docs.deep_view()[m2] by {
                            assert(layers2.deep_view()[m2] == layers2@[m2].deep_view());
                            if m2 < pl.len() {
                                assert(layers2@[m2] == pl[m2]);
                                assert(pldv[m2] == pl[m2].deep_view());
                                assert(pldv[m2] == docs.deep_view()[m2]);
                            } else {
                                assert(docs.deep_view()[m2] == docs@[m2].deep_view());
                                assert(layers2@[m2].deep_view() =~~= docs@[m2].deep_view());
                            }
                        }
                    }
                    m = m + 1;
                }
                proof {
                    assert(layers2.deep_view() =~~= docs.deep_view());
                }
                let ghost prevr = results@;
                let ghost prevrdv = results.deep_view();
                let ghost okeyv = okey.deep_view();
                let ghost l2dv = layers2.deep_view();
                results.push(
                    SvgResult {
                        path: crate::text::clone_bytes(&g.path),
                        option: okey,
                        layers: layers2,
                    },
                );
                proof {
                    assert forall|m2: int| 0 <= m2 < results@.len() implies results.deep_view()[m2]
                        == (if m2 < prevr.len() {
                        prevrdv[m2]
                    } else {
                        results@[m2].deep_view()
                    }) by {
                        assert(results.deep_view()[m2] == results@[m2].deep_view());
                        if m2 < prevr.len() {
                            assert(results@[m2] == prevr[m2]);
                            assert(prevrdv[m2] == prevr[m2].deep_view());
                        }
                    }
                    assert(results@[results@.len() - 1]@ =~~= (ResultView {
                        path: gv.path,
                        option: okeyv,
                        layers: layers_out(ov.layers),
                    })) by {
                        assert(g.path@ == gv.path);
                        assert(results@[results@.len() - 1].layers.deep_view() == l2dv);
                        assert(l2dv =~~= layers_out(ov.layers)) by {
                            assert(l2dv =~~= docs.deep_view());
                        }
                    }
                    assert(option_key(parts.deep_view()[pi as int]) == Ok::<
                        Option<(Seq<u8>, Seq<u8>)>,
                        SplitError,
                    >(okeyv));
                    assert(results.deep_view() =~= prevrdv.push(results@[results@.len() - 1]@));
                    assert(results@[results@.len() - 1]@ == (ResultView {
                        path: gv.path,
                        option: okeyv,
                        layers: layers_out(ov.layers),
                    }));
                    assert(parts_results(
                        gv.path,
                        layers_out(ov.layers),
                        parts.deep_view().take(pi as int + 1),
                    ) == Ok::<Seq<ResultView>, SplitError>(
                        (parts_results(
                            gv.path,
                            layers_out(ov.layers),
                            parts.deep_view().take(pi as int),
                        )->Ok_0).push(
                            ResultView { path: gv.path, option: okeyv, layers: layers_out(ov.layers) },
                        ),
                    ));
                    assert(results.deep_view() =~= (all_results(gsv.take(gi as int))->Ok_0) + (
                    opts_results(gv.path, gv.options.take(oi as int))->Ok_0) + (parts_results(
                        gv.path,
                        layers_out(ov.layers),
                        parts.deep_view().take(pi as int + 1),
                    )->Ok_0));
                }
                pi = pi + 1;
            }
            proof {
                assert(parts.deep_view().take(np as int) =~= parts.deep_view());
                assert(gv.options.take(oi as int + 1).drop_last() =~= gv.options.take(oi as int));
                assert(gv.options.take(oi as int + 1).last() == gv.options[oi as int]);
                assert(gv.options[oi as int] == ov);
                assert(results.deep_view() =~= (all_results(gsv.take(gi as int))->Ok_0) + (
                opts_results(gv.path, gv.options.take(oi as int + 1))->Ok_0));
            }
            oi = oi + 1;
        }
        proof {
            assert(gv.options.take(no as int) =~= gv.options);
            assert(gsv.take(gi as int + 1).drop_last() =~= gsv.take(gi as int));
            assert(gsv.take(gi as int + 1).last() == gsv[gi as int]);
            assert(results.deep_view() =~= (all_results(gsv.take(gi as int + 1))->Ok_0));
        }
        gi = gi + 1;
    }
    proof {
        assert(gsv.take(ng as int) =~= gsv);
    }
    Ok(results)
}

proof fn lemma_results_halt_parts(
    path: Seq<u8>,
    lo: Seq<(Option<Seq<u8>>, Seq<u8>)>,
    parts: Seq<Seq<u8>>,
    i: int,
)
    requires
        0 <= i <= parts.len(),
        parts_results(path, lo, parts.take(i)) is Err,
    ensures
        parts_results(path, lo, parts) == parts_results(path, lo, parts.take(i)),
    decreases parts.len() - i,
{
    if i < parts.len() {
        assert(parts.take(i + 1).drop_last() =~= parts.take(i));
        lemma_results_halt_parts(path, lo, parts, i + 1);
    } else {
        assert(parts.take(i) =~= parts);
    }
}

proof fn lemma_results_halt_opts(path: Seq<u8>, os: Seq<OptGroupView>, i: int)
    requires
        0 <= i <= os.len(),
        opts_results(path, os.take(i)) is Err,
    ensures
        opts_results(path, os) == opts_results(path, os.take(i)),
    decreases os.len() - i,
{
    if i < os.len() {
        assert(os.take(i + 1).drop_last() =~= os.take(i));
        lemma_results_halt_opts(path, os, i + 1);
    } else {
        assert(os.take(i) =~= os);
    }
}

proof fn lemma_results_halt_all(gs: Seq<PathGroupView>, i: int)
    requires
        0 <= i <= gs.len(),
        all_results(gs.take(i)) is Err,
    ensures
        all_results(gs) == all_results(gs.take(i)),
    decreases gs.len() - i,
{
    if i < gs.len() {
        assert(gs.take(i + 1).drop_last() =~= gs.take(i));
        lemma_results_halt_all(gs, i + 1);
    } else {
        assert(gs.take(i) =~= gs);
    }
}

/// Split a parsed document's events into self-contained per-layer documents,
/// one output per (path, option alias). The result is exactly the capture and
/// emission folds followed by [`all_results`]; a rejected document gives the
/// fold's error.
pub fn split_events(events: &Vec<XmlPiece>) -> (r: Result<Vec<SvgResult>, SplitError>)
    ensures
        ({
            let cst = capture_fold(events.deep_view());
            let est = emit_fold(
                events.deep_view(),
                root_attrs_of(events.deep_view()),
                cst.defs,
                cst.frags,
            );
            match r {
                Ok(rs) => cst.err is None && est.err is None && all_results(est.groups) == Ok::<
                    Seq<ResultView>,
                    SplitError,
                >(rs.deep_view()),
                Err(e) => if cst.err is Some {
                    cst.err == Some(e)
                } else if est.err is Some {
                    est.err == Some(e)
                } else {
                    all_results(est.groups) == Err::<Seq<ResultView>, SplitError>(e)
                },
            }
        }),
{
    let rootattrs = scan_root_attrs(events);
    let (defs, frags) = match capture(events) {
        Ok(df) => df,
        Err(e) => {
            return Err(e);
        },
    };
    let groups = match emit(events, &rootattrs, &defs, &frags) {
        Ok(gs) => gs,
        Err(e) => {
            return Err(e);
        },
    };
    finalize(&groups)
}

/// Split a vector-markup document, given as UTF-8 text, into self-contained
/// per-layer documents: parse it and split its events.
pub fn split_svgs(text: &Vec<u8>) -> (r: Result<Vec<SvgResult>, SplitError>)
    ensures
        ({
            let evs = crate::markup::xml_events_of(text@);
            let cst = capture_fold(evs);
            let est = emit_fold(evs, root_attrs_of(evs), cst.defs, cst.frags);
            match r {
                Ok(rs) => cst.err is None && est.err is None && all_results(est.groups) == Ok::<
                    Seq<ResultView>,
                    SplitError,
                >(rs.deep_view()),
                Err(e) => if cst.err is Some {
                    cst.err == Some(e)
                } else if est.err is Some {
                    est.err == Some(e)
                } else {
                    all_results(est.groups) == Err::<Seq<ResultView>, SplitError>(e)
                },
            }
        }),
{
    let events = crate::markup::parse_xml(text);
    split_events(&events)
}

} // verus!
