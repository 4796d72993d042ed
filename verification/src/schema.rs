//! The tree of nodes as it is learnt from the device: which definitions
//! came in, which nodes were asked for their children, what to ask next,
//! and the full name of a node.
use std::collections::HashMap;
use vstd::prelude::*;
use vstd::string::*;
use vstd::utf8::*;
use crate::node::{NodeType, WingNodeDef, WingNodeDefView};
use crate::text::{decimal, decimal_string};
use crate::wire::{be_bytes16, be_bytes32, be_bytes_u16, be_bytes_u32, pattern32, pattern_of};

verus! {

/// How many requests go out at most before their answers are awaited, as
/// far as one node's children go.
pub const BATCH: usize = 100;

/// What is known of the tree.
pub struct Schema {
    children: HashMap<i32, Vec<i32>>,
    defs: HashMap<i32, WingNodeDef>,
}

/// A `Schema` as plain values.
pub struct SchemaView {
    /// For each node that was asked for its children, or has some: their
    /// ids, in the order in which their definitions came in.
    pub children: Map<i32, Seq<i32>>,
    /// The definitions that came in, by id.
    pub defs: Map<i32, WingNodeDefView>,
}

impl View for Schema {
    type V = SchemaView;

    closed spec fn view(&self) -> SchemaView {
        SchemaView {
            children: Map::new(
                |id: i32| self.children@.contains_key(id),
                |id: i32| self.children@[id]@,
            ),
            defs: Map::new(|id: i32| self.defs@.contains_key(id), |id: i32| self.defs@[id]@),
        }
    }
}

impl SchemaView {
    /// The children of `id` that are known.
    pub open spec fn kids(self, id: i32) -> Seq<i32> {
        if self.children.contains_key(id) {
            self.children[id]
        } else {
            Seq::empty()
        }
    }

    /// Whether `id` was asked for its children, or has some.
    pub open spec fn asked(self, id: i32) -> bool {
        self.children.contains_key(id)
    }

    /// Whether `id` is known to be a container of other nodes.
    pub open spec fn is_container(self, id: i32) -> bool {
        self.defs.contains_key(id) && self.defs[id].node_type == NodeType::Node
    }

    /// The tree after `id` was asked for its children, for the first time.
    pub open spec fn mark(self, id: i32) -> SchemaView {
        SchemaView { children: self.children.insert(id, Seq::empty()), ..self }
    }

    /// The tree after the definition `def` came in.
    pub open spec fn with(self, def: WingNodeDefView) -> SchemaView {
        SchemaView {
            children: self.children.insert(def.parent_id, self.kids(def.parent_id).push(def.id)),
            defs: self.defs.insert(def.id, def),
        }
    }
}

/// What a node is called among its siblings: its name, or its index in
/// decimal where it has no name.
pub open spec fn segment(d: WingNodeDefView) -> Seq<char> {
    if d.name.len() == 0 {
        decimal(d.index as int)
    } else {
        d.name
    }
}

/// What stands before a node's own segment in its full name, `parent` being
/// its parent: a slash for a child of the root, else the parent's segment
/// and a slash behind what stands before that. Where a parent is not known,
/// the name begins with `???/` there; so it does where more than `fuel`
/// parents were passed, which happens only if the nodes go round in a
/// circle.
pub open spec fn prefix(v: SchemaView, parent: i32, fuel: nat) -> Seq<char>
    decreases fuel,
{
    if parent == 0 {
        "/"@
    } else if !v.defs.contains_key(parent) || fuel == 0 {
        "???/"@
    } else {
        prefix(v, v.defs[parent].parent_id, (fuel - 1) as nat) + segment(v.defs[parent]) + "/"@
    }
}

/// The full name of a node whose definition is `d`.
pub open spec fn full_name_of(v: SchemaView, d: WingNodeDefView) -> Seq<char> {
    prefix(v, d.parent_id, v.defs.dom().len()) + segment(d)
}

/// The record of a node in the table of names: id, parent id and the code
/// of the type, then the full name, its length in 16 bits before it. Of a
/// longer name the length is cut to its low 16 bits.
pub open spec fn record_of(d: WingNodeDefView, full_name: Seq<char>) -> Seq<u8> {
    be_bytes32(pattern32(d.id as int)) + be_bytes32(pattern32(d.parent_id as int)) + seq![
        d.node_type.code_of() as u8,
    ] + be_bytes16(encode_utf8(full_name).len() as int % 0x1_0000) + encode_utf8(full_name)
}

/// Asks the children from the `i`-th on, as far as they are containers
/// that were not asked yet, until `BATCH` nodes are asked: the tree after
/// that, and `done` with the nodes asked behind it.
pub open spec fn ask_kids(v: SchemaView, kids: Seq<i32>, i: int, done: Seq<i32>) -> (
    SchemaView,
    Seq<i32>,
)
    decreases kids.len() - i,
{
    if i < 0 || i >= kids.len() || done.len() >= BATCH {
        (v, done)
    } else if v.is_container(kids[i]) && !v.asked(kids[i]) {
        ask_kids(v.mark(kids[i]), kids, i + 1, done.push(kids[i]))
    } else {
        ask_kids(v, kids, i + 1, done)
    }
}

/// What to ask next in the part of the tree below `node`, and the tree
/// after that. A node that was not asked is asked. Else those of its
/// children are asked that are containers and were not asked. Where there
/// are none, the same is done below each child that is a container, one
/// after the other, until `BATCH` nodes or more are asked. Nothing is asked
/// more than `fuel` levels below `node`.
pub open spec fn wanted(v: SchemaView, node: i32, fuel: nat) -> (SchemaView, Seq<i32>)
    decreases fuel, 0nat, 0nat,
{
    if !v.asked(node) {
        (v.mark(node), seq![node])
    } else if ask_kids(v, v.kids(node), 0, Seq::empty()).1.len() > 0 {
        ask_kids(v, v.kids(node), 0, Seq::empty())
    } else if fuel == 0 {
        (v, Seq::empty())
    } else {
        wanted_below(v, v.kids(node), 0, Seq::empty(), (fuel - 1) as nat)
    }
}

/// What to ask below the children from the `i`-th on, as far as they are
/// containers, until `BATCH` nodes or more are asked: the tree after that,
/// and `done` with the nodes asked behind it.
pub open spec fn wanted_below(
    v: SchemaView,
    kids: Seq<i32>,
    i: int,
    done: Seq<i32>,
    fuel: nat,
) -> (SchemaView, Seq<i32>)
    decreases fuel, 1nat, kids.len() - i,
{
    if i < 0 || i >= kids.len() || done.len() >= BATCH {
        (v, done)
    } else if v.is_container(kids[i]) {
        wanted_below(
            wanted(v, kids[i], fuel).0,
            kids,
            i + 1,
            done + wanted(v, kids[i], fuel).1,
            fuel,
        )
    } else {
        wanted_below(v, kids, i + 1, done, fuel)
    }
}

/// The nodes below `node` and `node` itself, unless it is the root, each
/// before its children and the children in their order, down to `fuel`
/// levels.
pub open spec fn walk(v: SchemaView, node: i32, fuel: nat) -> Seq<i32>
    decreases fuel, 0nat, 0nat,
{
    (if node != 0 {
        seq![node]
    } else {
        Seq::empty()
    }) + (if fuel == 0 {
        Seq::empty()
    } else {
        walk_kids(v, v.kids(node), 0, (fuel - 1) as nat)
    })
}

/// The nodes at and below the children from the `i`-th on.
pub open spec fn walk_kids(v: SchemaView, kids: Seq<i32>, i: int, fuel: nat) -> Seq<i32>
    decreases fuel, 1nat, kids.len() - i,
{
    if i < 0 || i >= kids.len() {
        Seq::empty()
    } else {
        walk(v, kids[i], fuel) + walk_kids(v, kids, i + 1, fuel)
    }
}

/// Asking children only adds to what was asked, and where it adds nothing
/// it leaves the tree as it was.
proof fn lemma_ask_kids_grows(v: SchemaView, kids: Seq<i32>, i: int, done: Seq<i32>)
    ensures
        ask_kids(v, kids, i, done).1.len() >= done.len(),
        ask_kids(v, kids, i, done).1.len() == done.len() ==> ask_kids(v, kids, i, done).0 == v,
    decreases kids.len() - i,
{
    if i < 0 || i >= kids.len() || done.len() >= BATCH {
    } else if v.is_container(kids[i]) && !v.asked(kids[i]) {
        lemma_ask_kids_grows(v.mark(kids[i]), kids, i + 1, done.push(kids[i]));
    } else {
        lemma_ask_kids_grows(v, kids, i + 1, done);
    }
}

/// The low 16 bits of a length.
fn low_word(n: usize) -> (w: u16)
    ensures
        w == n % 0x1_0000,
{
    let w = n as u16;
    assert(w == n % 0x1_0000) by (bit_vector)
        requires
            w == n as u16,
    ;
    w
}

/// The record of the node `def`, whose full name is `full_name`, in the
/// table of names.
pub fn record(def: &WingNodeDef, full_name: &str) -> (bytes: Vec<u8>)
    ensures
        bytes@ == record_of(def@, full_name@),
{
    let mut bytes: Vec<u8> = Vec::new();
    let id = be_bytes_u32(pattern_of(def.id));
    let parent = be_bytes_u32(pattern_of(def.parent_id));
    bytes.extend_from_slice(id.as_slice());
    bytes.extend_from_slice(parent.as_slice());
    bytes.push(def.node_type.code());
    let name = full_name.as_bytes();
    let len = be_bytes_u16(low_word(name.len()));
    bytes.extend_from_slice(len.as_slice());
    bytes.extend_from_slice(name);
    assert(bytes@ =~= record_of(def@, full_name@));
    bytes
}

/// What the node `def` is called among its siblings.
fn segment_text(def: &WingNodeDef) -> (s: String)
    ensures
        s@ == segment(def@),
{
    if def.name.as_str().is_empty() {
        decimal_string(def.index as i64)
    } else {
        def.name.clone()
    }
}

impl Schema {
    /// A tree of which nothing is known.
    pub fn new() -> (s: Self)
        ensures
            s@ == (SchemaView { children: Map::empty(), defs: Map::empty() }),
    {
        let s = Schema { children: HashMap::new(), defs: HashMap::new() };
        assert(s@.children =~= Map::empty());
        assert(s@.defs =~= Map::empty());
        s
    }

    /// Takes in a definition that came from the device: the node is added
    /// to the children of its parent and its definition is kept.
    pub fn add(&mut self, def: WingNodeDef)
        ensures
            final(self)@ == old(self)@.with(def@),
    {
        let parent = def.parent_id;
        let id = def.id;
        let mut kids = match self.children.remove(&parent) {
            Some(kids) => kids,
            None => Vec::new(),
        };
        kids.push(id);
        self.children.insert(parent, kids);
        self.defs.insert(id, def);
        assert(self@.children =~= old(self)@.with(def@).children);
        assert(self@.defs =~= old(self)@.with(def@).defs);
    }

    /// The definition of the node `id`, if it came in.
    pub fn get(&self, id: i32) -> (def: Option<&WingNodeDef>)
        ensures
            def is Some <==> self@.defs.contains_key(id),
            def matches Some(d) ==> d@ == self@.defs[id],
    {
        self.defs.get(&id)
    }

    /// The full name of the node `def`: the segments of its parents from
    /// the root down and its own, with slashes between them and one before
    /// the first.
    pub fn full_name(&self, def: &WingNodeDef) -> (name: String)
        ensures
            name@ == full_name_of(self@, def@),
    {
        let mut name = segment_text(def);
        let mut parent = def.parent_id;
        let mut fuel: usize = self.defs.len();
        let ghost whole = full_name_of(self@, def@);
        assert(self@.defs.dom() =~= self.defs@.dom());
        loop
            invariant
                whole == full_name_of(self@, def@),
                whole == prefix(self@, parent, fuel as nat) + name@,
            decreases fuel,
        {
            if parent == 0 {
                let mut out = String::from_str("/");
                out.append(name.as_str());
                return out;
            }
            let above = match self.defs.get(&parent) {
                Some(above) => above,
                None => {
                    let mut out = String::from_str("???/");
                    out.append(name.as_str());
                    return out;
                },
            };
            if fuel == 0 {
                let mut out = String::from_str("???/");
                out.append(name.as_str());
                return out;
            }
            let mut longer = segment_text(above);
            longer.append("/");
            longer.append(name.as_str());
            assert(prefix(self@, parent, fuel as nat) + name@ =~= prefix(
                self@,
                above.parent_id,
                (fuel - 1) as nat,
            ) + longer@);
            name = longer;
            parent = above.parent_id;
            fuel = fuel - 1;
        }
    }

    /// How many nodes were asked for their children, or have some.
    fn parents(&self) -> (n: usize)
        ensures
            n == self@.children.dom().len(),
    {
        assert(self@.children.dom() =~= self.children@.dom());
        self.children.len()
    }

    /// The children of `id` that are known.
    fn kids(&self, id: i32) -> (kids: Vec<i32>)
        ensures
            kids@ == self@.kids(id),
    {
        match self.children.get(&id) {
            Some(kids) => kids.clone(),
            None => Vec::new(),
        }
    }

    /// Whether `id` was asked for its children, or has some.
    fn asked(&self, id: i32) -> (b: bool)
        ensures
            b == self@.asked(id),
    {
        self.children.contains_key(&id)
    }

    /// Whether `id` is known to be a container of other nodes.
    fn is_container(&self, id: i32) -> (b: bool)
        ensures
            b == self@.is_container(id),
    {
        match self.defs.get(&id) {
            Some(def) => def.node_type == NodeType::Node,
            None => false,
        }
    }

    /// Notes that `id` is asked for its children.
    fn mark(&mut self, id: i32)
        ensures
            final(self)@ == old(self)@.mark(id),
    {
        self.children.insert(id, Vec::new());
        assert(self@.children =~= old(self)@.mark(id).children);
        assert(self@.defs =~= old(self)@.defs);
    }

    /// Asks those of `kids` that are containers and were not asked.
    fn ask_kids(&mut self, kids: &Vec<i32>) -> (done: Vec<i32>)
        ensures
            (final(self)@, done@) == ask_kids(old(self)@, kids@, 0, Seq::empty()),
    {
        let mut done: Vec<i32> = Vec::new();
        let mut i: usize = 0;
        while i < kids.len() && done.len() < BATCH
            invariant
                i <= kids.len(),
                ask_kids(old(self)@, kids@, 0, Seq::empty()) == ask_kids(
                    self@,
                    kids@,
                    i as int,
                    done@,
                ),
            decreases kids.len() - i,
        {
            let kid = kids[i];
            if self.is_container(kid) && !self.asked(kid) {
                self.mark(kid);
                done.push(kid);
            }
            i = i + 1;
        }
        done
    }

    /// What to ask next below `node`, no more than `fuel` levels down.
    fn wanted(&mut self, node: i32, fuel: usize) -> (done: Vec<i32>)
        ensures
            (final(self)@, done@) == wanted(old(self)@, node, fuel as nat),
        decreases fuel,
    {
        if !self.asked(node) {
            self.mark(node);
            let mut done: Vec<i32> = Vec::new();
            done.push(node);
            assert(done@ =~= seq![node]);
            return done;
        }
        let kids = self.kids(node);
        let direct = self.ask_kids(&kids);
        if direct.len() > 0 {
            return direct;
        }
        proof {
            lemma_ask_kids_grows(old(self)@, kids@, 0, Seq::empty());
        }
        let mut done: Vec<i32> = Vec::new();
        if fuel == 0 {
            return done;
        }
        let ghost start = self@;
        let mut i: usize = 0;
        while i < kids.len() && done.len() < BATCH
            invariant
                i <= kids.len(),
                fuel > 0,
                wanted_below(start, kids@, 0, Seq::empty(), (fuel - 1) as nat) == wanted_below(
                    self@,
                    kids@,
                    i as int,
                    done@,
                    (fuel - 1) as nat,
                ),
            decreases kids.len() - i,
        {
            let kid = kids[i];
            if self.is_container(kid) {
                let mut got = self.wanted(kid, fuel - 1);
                done.append(&mut got);
            }
            i = i + 1;
        }
        done
    }

    /// What to ask the device next, beginning at the root: the ids of the
    /// nodes whose definitions are to be requested, in that order. They
    /// count as asked from now on. Nothing is left to ask when there are
    /// none.
    pub fn next_batch(&mut self) -> (ids: Vec<i32>)
        ensures
            (final(self)@, ids@) == wanted(old(self)@, 0, old(self)@.children.dom().len()),
    {
        let fuel = self.parents();
        self.wanted(0, fuel)
    }

    /// Adds `node`, unless it is the root, and the nodes below it to `out`.
    fn walk(&self, node: i32, fuel: usize, out: &mut Vec<i32>)
        ensures
            final(out)@ == old(out)@ + walk(self@, node, fuel as nat),
        decreases fuel,
    {
        if node != 0 {
            out.push(node);
        }
        if fuel == 0 {
            assert(out@ =~= old(out)@ + walk(self@, node, fuel as nat));
            return ;
        }
        let ghost first = out@;
        let kids = self.kids(node);
        let mut i: usize = 0;
        while i < kids.len()
            invariant
                i <= kids.len(),
                fuel > 0,
                first + walk_kids(self@, kids@, 0, (fuel - 1) as nat) == out@ + walk_kids(
                    self@,
                    kids@,
                    i as int,
                    (fuel - 1) as nat,
                ),
            decreases kids.len() - i,
        {
            let ghost before = out@;
            self.walk(kids[i], fuel - 1, out);
            assert(before + (walk(self@, kids@[i as int], (fuel - 1) as nat) + walk_kids(
                self@,
                kids@,
                i + 1,
                (fuel - 1) as nat,
            )) =~= out@ + walk_kids(self@, kids@, i + 1, (fuel - 1) as nat));
            i = i + 1;
        }
        assert(out@ =~= old(out)@ + walk(self@, node, fuel as nat));
    }

    /// Every node below the root, each before its children and the
    /// children in the order in which their definitions came in.
    pub fn order(&self) -> (ids: Vec<i32>)
        ensures
            ids@ == walk(self@, 0, self@.children.dom().len()),
    {
        let mut ids: Vec<i32> = Vec::new();
        let fuel = self.parents();
        self.walk(0, fuel, &mut ids);
        ids
    }
}

} // verus!
