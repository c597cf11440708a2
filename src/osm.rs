use vstd::prelude::*;
use crate::coordinate::{Coordinate, coordinate_of};
use crate::lexer::{Attr, Tag, TagKind, TagView, attrs_view, tags_of, tags_view, tokenize};
use crate::text::chars_of;

verus! {

/// A document: its nodes and its ways, in the order of the text.
#[derive(Debug)]
pub struct OsmDocument {
    pub nodes: Vec<OsmNode>,
    pub ways: Vec<OsmWay>,
}

/// A point on the map.
#[derive(Debug)]
pub struct OsmNode {
    pub id: String,
    pub lat: Coordinate,
    pub lon: Coordinate,
}

/// A path through nodes, named by their identifiers, with its tags.
#[derive(Debug)]
pub struct OsmWay {
    pub id: String,
    pub nds: Vec<OsmNd>,
    pub tags: Vec<OsmTag>,
}

/// A reference from a way to a node.
#[derive(Debug)]
pub struct OsmNd {
    pub node_ref: String,
}

/// A key and a value that describe a way.
#[derive(Debug)]
pub struct OsmTag {
    pub k: String,
    pub v: String,
}

/// Why a text is no document.
#[derive(Clone, Copy, Debug, PartialEq, Eq, Structural)]
pub enum ParseError {
    /// The markup is not well-formed, or an attribute value holds a bad reference.
    Malformed,
    /// A node lacks its identifier or a coordinate, or a coordinate is no number.
    InvalidPoint,
    /// A way lacks its identifier, or one of its tags lacks its key or value.
    InvalidPath,
}

/// A way names a node that the document does not hold.
#[derive(Debug)]
pub enum ResolutionError {
    DanglingReference(String),
}

pub struct NodeView {
    pub id: Seq<char>,
    pub lat: Coordinate,
    pub lon: Coordinate,
}

pub struct WayView {
    pub id: Seq<char>,
    pub refs: Seq<Seq<char>>,
    pub tags: Seq<(Seq<char>, Seq<char>)>,
}

pub struct DocView {
    pub nodes: Seq<NodeView>,
    pub ways: Seq<WayView>,
}

impl View for OsmNode {
    type V = NodeView;

    open spec fn view(&self) -> NodeView {
        NodeView { id: self.id@, lat: self.lat, lon: self.lon }
    }
}

pub open spec fn refs_view(v: Seq<OsmNd>) -> Seq<Seq<char>> {
    v.map_values(|n: OsmNd| n.node_ref@)
}

pub open spec fn way_tags_view(v: Seq<OsmTag>) -> Seq<(Seq<char>, Seq<char>)> {
    v.map_values(|t: OsmTag| (t.k@, t.v@))
}

impl View for OsmWay {
    type V = WayView;

    open spec fn view(&self) -> WayView {
        WayView { id: self.id@, refs: refs_view(self.nds@), tags: way_tags_view(self.tags@) }
    }
}

pub open spec fn nodes_view(v: Seq<OsmNode>) -> Seq<NodeView> {
    v.map_values(|n: OsmNode| n@)
}

pub open spec fn ways_view(v: Seq<OsmWay>) -> Seq<WayView> {
    v.map_values(|w: OsmWay| w@)
}

impl View for OsmDocument {
    type V = DocView;

    open spec fn view(&self) -> DocView {
        DocView { nodes: nodes_view(self.nodes@), ways: ways_view(self.ways@) }
    }
}

// ---------------------------------------------------------------------------
// From tags to a document
// ---------------------------------------------------------------------------

/// The value of the first attribute named `key`.
pub open spec fn find_attr(attrs: Seq<(Seq<char>, Seq<char>)>, key: Seq<char>) -> Option<Seq<char>>
    decreases attrs.len(),
{
    if attrs.len() == 0 {
        None
    } else if attrs[0].0 == key {
        Some(attrs[0].1)
    } else {
        find_attr(attrs.drop_first(), key)
    }
}

/// The node that a `node` element's attributes describe.
pub open spec fn node_of(attrs: Seq<(Seq<char>, Seq<char>)>) -> Result<NodeView, ParseError> {
    match (find_attr(attrs, "id"@), find_attr(attrs, "lat"@), find_attr(attrs, "lon"@)) {
        (Some(id), Some(lat), Some(lon)) => match (coordinate_of(lat), coordinate_of(lon)) {
            (Some(a), Some(b)) => Ok(NodeView { id, lat: a, lon: b }),
            _ => Err(ParseError::InvalidPoint),
        },
        _ => Err(ParseError::InvalidPoint),
    }
}

/// The way, still without references and tags, that a `way` element's
/// attributes describe.
pub open spec fn way_of(attrs: Seq<(Seq<char>, Seq<char>)>) -> Result<WayView, ParseError> {
    match find_attr(attrs, "id"@) {
        Some(id) => Ok(WayView { id, refs: Seq::empty(), tags: Seq::empty() }),
        None => Err(ParseError::InvalidPath),
    }
}

/// The reference that an `nd` element names; empty where it names none.
pub open spec fn ref_of(attrs: Seq<(Seq<char>, Seq<char>)>) -> Seq<char> {
    match find_attr(attrs, "ref"@) {
        Some(r) => r,
        None => Seq::empty(),
    }
}

/// The key and value of a `tag` element.
pub open spec fn tag_of(attrs: Seq<(Seq<char>, Seq<char>)>) -> Result<(Seq<char>, Seq<char>), ParseError> {
    match (find_attr(attrs, "k"@), find_attr(attrs, "v"@)) {
        (Some(k), Some(v)) => Ok((k, v)),
        _ => Err(ParseError::InvalidPath),
    }
}

/// What has been read of a document after some of its tags: the names of
/// the elements that are open, whether the root element has begun, the way
/// being read, and the document so far.
pub struct BuildView {
    pub stack: Seq<Seq<char>>,
    pub rooted: bool,
    pub way: Option<WayView>,
    pub doc: DocView,
}

pub open spec fn start() -> BuildView {
    BuildView {
        stack: Seq::empty(),
        rooted: false,
        way: None,
        doc: DocView { nodes: Seq::empty(), ways: Seq::empty() },
    }
}

/// What an element that begins with tag `t` adds, read before the element
/// is pushed on the stack.
pub open spec fn enter(b: BuildView, t: TagView) -> Result<BuildView, ParseError> {
    let d = b.stack.len();
    if d == 1 && t.name == "node"@ {
        match node_of(t.attrs) {
            Ok(n) => Ok(BuildView { doc: DocView { nodes: b.doc.nodes.push(n), ..b.doc }, ..b }),
            Err(e) => Err(e),
        }
    } else if d == 1 && t.name == "way"@ {
        match way_of(t.attrs) {
            Ok(w) => Ok(BuildView { way: Some(w), ..b }),
            Err(e) => Err(e),
        }
    } else if d == 2 && b.way is Some && t.name == "nd"@ {
        let w = b.way->Some_0;
        Ok(BuildView { way: Some(WayView { refs: w.refs.push(ref_of(t.attrs)), ..w }), ..b })
    } else if d == 2 && b.way is Some && t.name == "tag"@ {
        match tag_of(t.attrs) {
            Ok(p) => {
                let w = b.way->Some_0;
                Ok(BuildView { way: Some(WayView { tags: w.tags.push(p), ..w }), ..b })
            },
            Err(e) => Err(e),
        }
    } else {
        Ok(b)
    }
}

/// An element ends whose parent is at depth `b.stack.len()`: a way that
/// ends below the root joins the document.
pub open spec fn leave(b: BuildView) -> BuildView {
    if b.stack.len() == 1 && b.way is Some {
        BuildView {
            way: None,
            doc: DocView { ways: b.doc.ways.push(b.way->Some_0), ..b.doc },
            ..b
        }
    } else {
        b
    }
}

/// What one tag does to what has been read.
pub open spec fn build_step(b: BuildView, t: TagView) -> Result<BuildView, ParseError> {
    if b.stack.len() == 0 && b.rooted {
        Err(ParseError::Malformed)
    } else {
        match t.kind {
            TagKind::Close => if b.stack.len() == 0 || b.stack.last() != t.name {
                Err(ParseError::Malformed)
            } else {
                Ok(leave(BuildView { stack: b.stack.drop_last(), ..b }))
            },
            TagKind::Open => match enter(b, t) {
                Ok(b2) => Ok(BuildView { stack: b2.stack.push(t.name), rooted: true, ..b2 }),
                Err(e) => Err(e),
            },
            TagKind::Empty => match enter(b, t) {
                Ok(b2) => Ok(leave(BuildView { rooted: true, ..b2 })),
                Err(e) => Err(e),
            },
        }
    }
}

/// The document that tags `ts` from index `i` on make of what was read
/// before them.
pub open spec fn build_from(ts: Seq<TagView>, i: int, b: BuildView) -> Result<DocView, ParseError>
    decreases ts.len() - i,
{
    if i < 0 || i >= ts.len() {
        if b.stack.len() == 0 && b.rooted {
            Ok(b.doc)
        } else {
            Err(ParseError::Malformed)
        }
    } else {
        match build_step(b, ts[i]) {
            Ok(b2) => build_from(ts, i + 1, b2),
            Err(e) => Err(e),
        }
    }
}

/// The document that a sequence of tags describes: one root element, whose
/// `node` and `way` children become nodes and ways, and whose ways' `nd` and
/// `tag` children become references and tags. Other elements are passed over.
pub open spec fn document_of_tags(ts: Seq<TagView>) -> Result<DocView, ParseError> {
    build_from(ts, 0, start())
}

/// The document that a text describes.
pub open spec fn document_of(s: Seq<char>) -> Result<DocView, ParseError> {
    match tags_of(s) {
        Some(ts) => document_of_tags(ts),
        None => Err(ParseError::Malformed),
    }
}

fn same_text(a: &str, b: &str) -> (r: bool)
    ensures
        r == (a@ == b@),
{
    let x = chars_of(a);
    let y = chars_of(b);
    if x.len() != y.len() {
        return false;
    }
    let mut i: usize = 0;
    while i < x.len()
        invariant
            x@ == a@,
            y@ == b@,
            x@.len() == y@.len(),
            i <= x@.len(),
            forall|j: int| 0 <= j < i ==> x@[j] == y@[j],
        decreases x@.len() - i,
    {
        if x[i] != y[i] {
            return false;
        }
        i = i + 1;
    }
    assert(x@ =~= y@);
    true
}

fn attr_value(attrs: &Vec<Attr>, key: &str) -> (r: Option<String>)
    ensures
        match r {
            Some(v) => find_attr(attrs_view(attrs@), key@) == Some(v@),
            None => find_attr(attrs_view(attrs@), key@) is None,
        },
{
    let ghost all = attrs_view(attrs@);
    let mut i: usize = 0;
    assert(all.skip(0) =~= all);
    while i < attrs.len()
        invariant
            i <= attrs@.len(),
            all == attrs_view(attrs@),
            find_attr(all, key@) == find_attr(all.skip(i as int), key@),
        decreases attrs@.len() - i,
    {
        assert(all.skip(i as int).drop_first() =~= all.skip(i + 1));
        if same_text(attrs[i].key.as_str(), key) {
            return Some(attrs[i].value.clone());
        }
        i = i + 1;
    }
    None
}

fn read_node(attrs: &Vec<Attr>) -> (r: Result<OsmNode, ParseError>)
    ensures
        match r {
            Ok(n) => node_of(attrs_view(attrs@)) == Ok::<NodeView, ParseError>(n@),
            Err(e) => node_of(attrs_view(attrs@)) == Err::<NodeView, ParseError>(e),
        },
{
    let id = attr_value(attrs, "id");
    let lat = attr_value(attrs, "lat");
    let lon = attr_value(attrs, "lon");
    match (id, lat, lon) {
        (Some(id), Some(lat), Some(lon)) => {
            let a = Coordinate::parse(chars_of(lat.as_str()).as_slice());
            let b = Coordinate::parse(chars_of(lon.as_str()).as_slice());
            match (a, b) {
                (Some(a), Some(b)) => Ok(OsmNode { id, lat: a, lon: b }),
                _ => Err(ParseError::InvalidPoint),
            }
        },
        _ => Err(ParseError::InvalidPoint),
    }
}

struct Builder {
    stack: Vec<String>,
    rooted: bool,
    way: Option<OsmWay>,
    doc: OsmDocument,
}

pub open spec fn names_view(v: Seq<String>) -> Seq<Seq<char>> {
    v.map_values(|s: String| s@)
}

impl View for Builder {
    type V = BuildView;

    closed spec fn view(&self) -> BuildView {
        BuildView {
            stack: names_view(self.stack@),
            rooted: self.rooted,
            way: match self.way {
                Some(w) => Some(w@),
                None => None,
            },
            doc: self.doc@,
        }
    }
}

impl Builder {
    fn new() -> (r: Builder)
        ensures
            r@ == start(),
    {
        let r = Builder {
            stack: Vec::new(),
            rooted: false,
            way: None,
            doc: OsmDocument { nodes: Vec::new(), ways: Vec::new() },
        };
        assert(names_view(r.stack@) =~= Seq::empty());
        assert(nodes_view(r.doc.nodes@) =~= Seq::empty());
        assert(ways_view(r.doc.ways@) =~= Seq::empty());
        r
    }

    fn enter(&mut self, t: &Tag) -> (r: Result<(), ParseError>)
        ensures
            match r {
                Ok(_) => enter(old(self)@, t@) == Ok::<BuildView, ParseError>(final(self)@),
                Err(e) => enter(old(self)@, t@) == Err::<BuildView, ParseError>(e),
            },
    {
        let ghost b = self@;
        let d = self.stack.len();
        if d == 1 && same_text(t.name.as_str(), "node") {
            let n = read_node(&t.attrs)?;
            self.doc.nodes.push(n);
            assert(nodes_view(self.doc.nodes@) =~= b.doc.nodes.push(n@));
            Ok(())
        } else if d == 1 && same_text(t.name.as_str(), "way") {
            match attr_value(&t.attrs, "id") {
                Some(id) => {
                    let w = OsmWay { id, nds: Vec::new(), tags: Vec::new() };
                    assert(refs_view(w.nds@) =~= Seq::empty());
                    assert(way_tags_view(w.tags@) =~= Seq::empty());
                    self.way = Some(w);
                    Ok(())
                },
                None => Err(ParseError::InvalidPath),
            }
        } else if d == 2 && self.way.is_some() && same_text(t.name.as_str(), "nd") {
            let node_ref = match attr_value(&t.attrs, "ref") {
                Some(r) => r,
                None => String::new(),
            };
            let mut w = self.way.take().unwrap();
            let ghost w0 = w@;
            w.nds.push(OsmNd { node_ref });
            assert(refs_view(w.nds@) =~= w0.refs.push(ref_of(t@.attrs)));
            self.way = Some(w);
            Ok(())
        } else if d == 2 && self.way.is_some() && same_text(t.name.as_str(), "tag") {
            match (attr_value(&t.attrs, "k"), attr_value(&t.attrs, "v")) {
                (Some(k), Some(v)) => {
                    let mut w = self.way.take().unwrap();
                    let ghost w0 = w@;
                    w.tags.push(OsmTag { k, v });
                    assert(way_tags_view(w.tags@) =~= w0.tags.push((k@, v@)));
                    self.way = Some(w);
                    Ok(())
                },
                _ => Err(ParseError::InvalidPath),
            }
        } else {
            Ok(())
        }
    }

    fn leave(&mut self)
        ensures
            final(self)@ == leave(old(self)@),
    {
        if self.stack.len() == 1 && self.way.is_some() {
            let w = self.way.take().unwrap();
            let ghost ws = self@.doc.ways;
            self.doc.ways.push(w);
            assert(ways_view(self.doc.ways@) =~= ws.push(w@));
        }
    }

    fn feed(&mut self, t: &Tag) -> (r: Result<(), ParseError>)
        ensures
            match r {
                Ok(_) => build_step(old(self)@, t@) == Ok::<BuildView, ParseError>(final(self)@),
                Err(e) => build_step(old(self)@, t@) == Err::<BuildView, ParseError>(e),
            },
    {
        let ghost b = self@;
        if self.stack.len() == 0 && self.rooted {
            return Err(ParseError::Malformed);
        }
        match t.kind {
            TagKind::Close => {
                let n = self.stack.len();
                if n == 0 {
                    return Err(ParseError::Malformed);
                }
                if self.stack[n - 1] != t.name {
                    return Err(ParseError::Malformed);
                }
                self.stack.pop();
                assert(names_view(self.stack@) =~= b.stack.drop_last());
                self.leave();
                Ok(())
            },
            TagKind::Open => {
                self.enter(t)?;
                let ghost s0 = self@.stack;
                self.stack.push(t.name.clone());
                assert(names_view(self.stack@) =~= s0.push(t@.name));
                self.rooted = true;
                Ok(())
            },
            TagKind::Empty => {
                self.enter(t)?;
                self.rooted = true;
                self.leave();
                Ok(())
            },
        }
    }
}

/// Builds the document that a sequence of tags describes.
pub fn assemble(tags: &Vec<Tag>) -> (r: Result<OsmDocument, ParseError>)
    ensures
        match r {
            Ok(d) => document_of_tags(tags_view(tags@)) == Ok::<DocView, ParseError>(d@),
            Err(e) => document_of_tags(tags_view(tags@)) == Err::<DocView, ParseError>(e),
        },
{
    let ghost ts = tags_view(tags@);
    let mut b = Builder::new();
    let mut i: usize = 0;
    while i < tags.len()
        invariant
            i <= tags@.len(),
            ts == tags_view(tags@),
            document_of_tags(ts) == build_from(ts, i as int, b@),
        decreases tags@.len() - i,
    {
        b.feed(&tags[i])?;
        i = i + 1;
    }
    if b.stack.len() == 0 && b.rooted {
        Ok(b.doc)
    } else {
        Err(ParseError::Malformed)
    }
}

/// Parses the XML text of a document.
pub fn parse_document(text: &str) -> (r: Result<OsmDocument, ParseError>)
    ensures
        match r {
            Ok(d) => document_of(text@) == Ok::<DocView, ParseError>(d@),
            Err(e) => document_of(text@) == Err::<DocView, ParseError>(e),
        },
{
    match tokenize(text) {
        Some(tags) => assemble(&tags),
        None => Err(ParseError::Malformed),
    }
}

// ---------------------------------------------------------------------------
// Resolving references
// ---------------------------------------------------------------------------

/// The first node of `nodes` whose identifier is `id`.
pub open spec fn lookup(nodes: Seq<NodeView>, id: Seq<char>) -> Option<NodeView>
    decreases nodes.len(),
{
    if nodes.len() == 0 {
        None
    } else if nodes[0].id == id {
        Some(nodes[0])
    } else {
        lookup(nodes.drop_first(), id)
    }
}

/// The nodes that `refs` name, in order, or the first reference that names
/// no node.
pub open spec fn resolve(refs: Seq<Seq<char>>, nodes: Seq<NodeView>) -> Result<Seq<NodeView>, Seq<char>>
    decreases refs.len(),
{
    if refs.len() == 0 {
        Ok(Seq::empty())
    } else {
        match resolve(refs.drop_last(), nodes) {
            Err(r) => Err(r),
            Ok(ps) => match lookup(nodes, refs.last()) {
                Some(n) => Ok(ps.push(n)),
                None => Err(refs.last()),
            },
        }
    }
}

pub open spec fn node_refs_view(v: Seq<&OsmNode>) -> Seq<NodeView> {
    v.map_values(|n: &OsmNode| n@)
}

impl OsmDocument {
    /// The first node whose identifier is `id`.
    pub fn node(&self, id: &str) -> (r: Result<&OsmNode, ResolutionError>)
        ensures
            match r {
                Ok(n) => lookup(self@.nodes, id@) == Some(n@),
                Err(ResolutionError::DanglingReference(s)) => lookup(self@.nodes, id@) is None
                    && s@ == id@,
            },
    {
        let ghost all = self@.nodes;
        let mut i: usize = 0;
        assert(all.skip(0) =~= all);
        while i < self.nodes.len()
            invariant
                i <= self.nodes@.len(),
                all == self@.nodes,
                lookup(all, id@) == lookup(all.skip(i as int), id@),
            decreases self.nodes@.len() - i,
        {
            assert(all.skip(i as int).drop_first() =~= all.skip(i + 1));
            if same_text(self.nodes[i].id.as_str(), id) {
                return Ok(&self.nodes[i]);
            }
            i = i + 1;
        }
        Err(ResolutionError::DanglingReference(id.to_owned()))
    }
}

impl OsmWay {
    /// The nodes of `osm` that this way passes through, in the order of its
    /// references; the first reference that names no node is an error.
    pub fn points<'a>(&'a self, osm: &'a OsmDocument) -> (r: Result<Vec<&'a OsmNode>, ResolutionError>)
        ensures
            match r {
                Ok(v) => resolve(self@.refs, osm@.nodes) == Ok::<Seq<NodeView>, Seq<char>>(node_refs_view(v@)),
                Err(ResolutionError::DanglingReference(s)) => resolve(self@.refs, osm@.nodes)
                    == Err::<Seq<NodeView>, Seq<char>>(s@),
            },
    {
        let ghost refs = self@.refs;
        let mut out: Vec<&'a OsmNode> = Vec::new();
        let mut i: usize = 0;
        assert(refs.take(0) =~= Seq::<Seq<char>>::empty());
        assert(node_refs_view(out@) =~= Seq::empty());
        while i < self.nds.len()
            invariant
                i <= self.nds@.len(),
                refs == self@.refs,
                resolve(refs.take(i as int), osm@.nodes) == Ok::<Seq<NodeView>, Seq<char>>(node_refs_view(out@)),
            decreases self.nds@.len() - i,
        {
            let ghost pre = refs.take(i + 1);
            assert(pre.drop_last() =~= refs.take(i as int));
            let n = osm.node(self.nds[i].node_ref.as_str());
            match n {
                Ok(n) => {
                    let ghost o = node_refs_view(out@);
                    out.push(n);
                    assert(node_refs_view(out@) =~= o.push(n@));
                },
                Err(e) => {
                    proof { lemma_resolve_err_extends(pre, refs, osm@.nodes); }
                    return Err(e);
                },
            }
            i = i + 1;
        }
        assert(refs.take(i as int) =~= refs);
        Ok(out)
    }
}

proof fn lemma_resolve_err_extends(t: Seq<Seq<char>>, u: Seq<Seq<char>>, nodes: Seq<NodeView>)
    requires
        resolve(t, nodes) is Err,
        t.len() <= u.len(),
        t =~= u.take(t.len() as int),
    ensures
        resolve(u, nodes) == resolve(t, nodes),
    decreases u.len() - t.len(),
{
    if u.len() > t.len() {
        let w = u.take(t.len() as int + 1);
        assert(w.drop_last() =~= t);
        assert(w =~= u.take(w.len() as int));
        lemma_resolve_err_extends(w, u, nodes);
    } else {
        assert(t =~= u);
    }
}

/// Looking up an identifier gives the first node that carries it: where two
/// nodes share it, the earlier one.
pub proof fn lemma_lookup_first(nodes: Seq<NodeView>, id: Seq<char>, i: int)
    requires
        0 <= i < nodes.len(),
        nodes[i].id == id,
        forall|k: int| 0 <= k < i ==> nodes[k].id != id,
    ensures
        lookup(nodes, id) == Some(nodes[i]),
    decreases i,
{
    if i > 0 {
        lemma_lookup_first(nodes.drop_first(), id, i - 1);
    }
}

/// Looking up an identifier that some node carries finds a node with it.
pub proof fn lemma_lookup_found(nodes: Seq<NodeView>, id: Seq<char>, i: int)
    requires
        0 <= i < nodes.len(),
        nodes[i].id == id,
    ensures
        lookup(nodes, id) is Some,
        lookup(nodes, id)->Some_0.id == id,
    decreases i,
{
    if nodes[0].id != id {
        lemma_lookup_found(nodes.drop_first(), id, i - 1);
    }
}

/// Looking up an identifier that no node carries finds nothing.
pub proof fn lemma_lookup_missing(nodes: Seq<NodeView>, id: Seq<char>)
    requires
        forall|k: int| 0 <= k < nodes.len() ==> nodes[k].id != id,
    ensures
        lookup(nodes, id) is None,
    decreases nodes.len(),
{
    if nodes.len() > 0 {
        lemma_lookup_missing(nodes.drop_first(), id);
    }
}

/// Where every reference names some node, resolution succeeds with one node
/// per reference, in the order of the references, each the first node that
/// carries its identifier.
pub proof fn lemma_resolve_complete(refs: Seq<Seq<char>>, nodes: Seq<NodeView>)
    requires
        forall|j: int| 0 <= j < refs.len() ==> exists|k: int| 0 <= k < nodes.len() && nodes[k].id == #[trigger] refs[j],
    ensures
        resolve(refs, nodes) is Ok,
        resolve(refs, nodes)->Ok_0.len() == refs.len(),
        forall|j: int| 0 <= j < refs.len() ==> lookup(nodes, refs[j]) == Some(#[trigger] resolve(refs, nodes)->Ok_0[j]),
        forall|j: int| 0 <= j < refs.len() ==> (#[trigger] resolve(refs, nodes)->Ok_0[j]).id == refs[j],
    decreases refs.len(),
{
    if refs.len() > 0 {
        let init = refs.drop_last();
        assert forall|j: int| 0 <= j < init.len() implies exists|k: int| 0 <= k < nodes.len() && nodes[k].id == #[trigger] init[j] by {
            assert(init[j] == refs[j]);
        }
        lemma_resolve_complete(init, nodes);
        let j = refs.len() - 1;
        let k = choose|k: int| 0 <= k < nodes.len() && nodes[k].id == refs[j];
        lemma_lookup_found(nodes, refs[j], k);
        let ps = resolve(init, nodes)->Ok_0;
        let n = lookup(nodes, refs.last())->Some_0;
        assert forall|i: int| 0 <= i < refs.len() implies lookup(nodes, refs[i]) == Some(#[trigger] ps.push(n)[i]) by {
            if i < init.len() {
                assert(init[i] == refs[i]);
            }
        }
        assert forall|i: int| 0 <= i < refs.len() implies (#[trigger] ps.push(n)[i]).id == refs[i] by {
            if i < init.len() {
                assert(init[i] == refs[i]);
            } else {
                assert(refs[i] == refs.last());
            }
        }
    }
}

/// Where some reference names no node, resolution fails, and the reference
/// that it reports names no node and is one of the way's.
pub proof fn lemma_resolve_dangling(refs: Seq<Seq<char>>, nodes: Seq<NodeView>, j: int)
    requires
        0 <= j < refs.len(),
        forall|k: int| 0 <= k < nodes.len() ==> nodes[k].id != refs[j],
    ensures
        resolve(refs, nodes) is Err,
        lookup(nodes, resolve(refs, nodes)->Err_0) is None,
        refs.contains(resolve(refs, nodes)->Err_0),
    decreases refs.len(),
{
    let init = refs.drop_last();
    if j < refs.len() - 1 {
        assert(init[j] == refs[j]);
        lemma_resolve_dangling(init, nodes, j);
        let e = resolve(init, nodes)->Err_0;
        let m = choose|m: int| 0 <= m < init.len() && init[m] == e;
        assert(refs[m] == e);
    } else {
        lemma_lookup_missing(nodes, refs[j]);
        match resolve(init, nodes) {
            Err(e) => {
                lemma_resolve_dangling_prefix(init, nodes);
                let m = choose|m: int| 0 <= m < init.len() && init[m] == e;
                assert(refs[m] == e);
            },
            Ok(_) => {
                assert(refs[refs.len() - 1] == refs.last());
            },
        }
    }
}

/// A failed resolution reports a reference of the way that names no node.
proof fn lemma_resolve_dangling_prefix(refs: Seq<Seq<char>>, nodes: Seq<NodeView>)
    requires
        resolve(refs, nodes) is Err,
    ensures
        lookup(nodes, resolve(refs, nodes)->Err_0) is None,
        refs.contains(resolve(refs, nodes)->Err_0),
    decreases refs.len(),
{
    let init = refs.drop_last();
    match resolve(init, nodes) {
        Err(e) => {
            lemma_resolve_dangling_prefix(init, nodes);
            let m = choose|m: int| 0 <= m < init.len() && init[m] == e;
            assert(refs[m] == e);
        },
        Ok(_) => {
            assert(refs[refs.len() - 1] == refs.last());
        },
    }
}

// ---------------------------------------------------------------------------
// How many nodes and ways a document holds
// ---------------------------------------------------------------------------

/// How deeply the tags before index `i` nest: the elements that they open
/// and have not closed.
pub open spec fn depth_before(ts: Seq<TagView>, i: int) -> int
    decreases i,
{
    if i <= 0 || i > ts.len() {
        0
    } else {
        depth_before(ts, i - 1) + match ts[i - 1].kind {
            TagKind::Open => 1int,
            TagKind::Close => -1int,
            TagKind::Empty => 0int,
        }
    }
}

/// The attributes of the tags before index `i` that begin an element named
/// `name` that is a child of the root, in order.
pub open spec fn children_before(ts: Seq<TagView>, i: int, name: Seq<char>) -> Seq<
    Seq<(Seq<char>, Seq<char>)>,
>
    decreases i,
{
    if i <= 0 || i > ts.len() {
        Seq::empty()
    } else if ts[i - 1].kind != TagKind::Close && ts[i - 1].name == name && depth_before(ts, i - 1)
        == 1 {
        children_before(ts, i - 1, name).push(ts[i - 1].attrs)
    } else {
        children_before(ts, i - 1, name)
    }
}

spec fn counted(ts: Seq<TagView>, i: int, b: BuildView) -> bool {
    let ns = children_before(ts, i, "node"@);
    let ws = children_before(ts, i, "way"@);
    &&& b.stack.len() == depth_before(ts, i)
    &&& b.doc.nodes.len() == ns.len()
    &&& forall|k: int| 0 <= k < ns.len() ==> node_of(#[trigger] ns[k]) == Ok::<NodeView, ParseError>(b.doc.nodes[k])
    &&& b.doc.ways.len() + (if b.way is Some { 1nat } else { 0nat }) == ws.len()
    &&& forall|k: int| 0 <= k < b.doc.ways.len() ==> find_attr(#[trigger] ws[k], "id"@) == Some(b.doc.ways[k].id)
    &&& (b.way is Some ==> find_attr(ws.last(), "id"@) == Some(b.way->Some_0.id))
    &&& (b.way is Some <==> (b.stack.len() >= 2 && b.stack[1] == "way"@))
}

proof fn lemma_counted_from(ts: Seq<TagView>, i: int, b: BuildView)
    requires
        0 <= i <= ts.len(),
        counted(ts, i, b),
        build_from(ts, i, b) is Ok,
    ensures
        document_shape(ts, build_from(ts, i, b)->Ok_0),
    decreases ts.len() - i,
{
    reveal_strlit("node");
    reveal_strlit("way");
    reveal_strlit("nd");
    reveal_strlit("tag");
    if i < ts.len() {
        let t = ts[i];
        let b2 = build_step(b, t)->Ok_0;
        assert(depth_before(ts, i + 1) == depth_before(ts, i) + match t.kind {
            TagKind::Open => 1int,
            TagKind::Close => -1int,
            TagKind::Empty => 0int,
        });
        assert("node"@.len() == 4 && "way"@.len() == 3 && "nd"@.len() == 2);
        assert("tag"@[0] == 't' && "way"@[0] == 'w');
        assert("node"@ != "way"@);
        assert("nd"@ != "way"@);
        assert("tag"@ != "way"@);
        if t.kind == TagKind::Close {
            let p = BuildView { stack: b.stack.drop_last(), ..b };
            assert(b2 == leave(p));
            if b.stack.len() == 2 {
                assert(p.stack.len() == 1);
            }
            if b.stack.len() > 2 {
                assert(p.stack[1] == b.stack[1]);
            }
        } else {
            let e = enter(b, t)->Ok_0;
            assert(e.stack == b.stack);
            if b.stack.len() == 1 && t.name == "way"@ {
                assert(e.way is Some);
                assert(e.doc == b.doc);
            } else if b.stack.len() == 1 {
                assert(e.way == b.way);
                assert(e.doc.ways == b.doc.ways);
            } else {
                assert(e.way is Some <==> b.way is Some);
                assert(e.doc == b.doc);
            }
            if t.kind == TagKind::Open {
                assert(b2.stack == b.stack.push(t.name));
                if b.stack.len() >= 2 {
                    assert(b2.stack[1] == b.stack[1]);
                }
                if b.stack.len() == 1 {
                    assert(b2.stack[1] == t.name);
                }
            } else {
                assert(b2 == leave(BuildView { rooted: true, ..e }));
            }
        }
        let cond_n = t.kind != TagKind::Close && t.name == "node"@ && depth_before(ts, i) == 1;
        let cond_w = t.kind != TagKind::Close && t.name == "way"@ && depth_before(ts, i) == 1;
        assert(children_before(ts, i + 1, "node"@) == if cond_n {
            children_before(ts, i, "node"@).push(t.attrs)
        } else {
            children_before(ts, i, "node"@)
        });
        assert(children_before(ts, i + 1, "way"@) == if cond_w {
            children_before(ts, i, "way"@).push(t.attrs)
        } else {
            children_before(ts, i, "way"@)
        });
        assert(counted(ts, i + 1, b2));
        lemma_counted_from(ts, i + 1, b2);
    }
}

/// The nodes of a document are those that the root's `node` children
/// describe, and its ways carry the identifiers of the root's `way`
/// children, one for one and in the order of the text.
pub open spec fn document_shape(ts: Seq<TagView>, d: DocView) -> bool {
    let ns = children_before(ts, ts.len() as int, "node"@);
    let ws = children_before(ts, ts.len() as int, "way"@);
    &&& d.nodes.len() == ns.len()
    &&& forall|k: int| 0 <= k < ns.len() ==> node_of(#[trigger] ns[k]) == Ok::<NodeView, ParseError>(d.nodes[k])
    &&& d.ways.len() == ws.len()
    &&& forall|k: int| 0 <= k < ws.len() ==> find_attr(#[trigger] ws[k], "id"@) == Some(d.ways[k].id)
}

/// A document holds one node for each `node` child of its root and one way
/// for each `way` child, in the order of the text.
pub proof fn lemma_document_shape(s: Seq<char>)
    requires
        document_of(s) is Ok,
    ensures
        tags_of(s) is Some,
        document_shape(tags_of(s)->Some_0, document_of(s)->Ok_0),
{
    lemma_counted_from(tags_of(s)->Some_0, 0, start());
}

/// A document whose root has no `node` and no `way` children holds no nodes
/// and no ways.
pub proof fn lemma_document_empty(s: Seq<char>)
    requires
        document_of(s) is Ok,
        tags_of(s) is Some,
        children_before(tags_of(s)->Some_0, tags_of(s)->Some_0.len() as int, "node"@).len() == 0,
        children_before(tags_of(s)->Some_0, tags_of(s)->Some_0.len() as int, "way"@).len() == 0,
    ensures
        document_of(s)->Ok_0.nodes.len() == 0,
        document_of(s)->Ok_0.ways.len() == 0,
{
    lemma_document_shape(s);
}

} // verus!
