//! The tree behind the map: what every folder holds, down to the file.
//!
//! A scan builds it a folder at a time, and finished file operations correct it afterwards:
//! what was deleted or moved is taken out, what was moved or copied in is put in, and the
//! sizes along the way are made true again by arithmetic.
//!
//! This is the map's own model of a scanned tree, not the walker's: a folder keeps its children
//! in order and the first of a name is the one meant, what comes in goes last and only into a
//! folder, what a scan reports takes the place of what was known, and a sum that does not fit
//! stops at the most there can be.

use vstd::prelude::*;
use vstd::string::*;
use crate::path;

verus! {

/// A file or a folder.
pub struct Node {
    pub name: String,
    /// Bytes. A folder's are those of everything under it.
    pub size: u64,
    /// Files under it.
    pub files: u32,
    /// The tag of its [`crate::kind::FileKind`].
    pub kind: u8,
    pub is_dir: bool,
    /// The walk has not been through it yet.
    pub pending: bool,
    /// The walk was not let in.
    pub denied: bool,
    pub children: Vec<Node>,
}

/// One step of a scan.
pub enum ScanStep {
    /// What was found of the folder at these names below the root.
    Closed { at: Vec<String>, node: Node },
    /// How many folders the walk has not opened yet.
    Pace { folders_left: u32 },
}

/// A [`Node`] as a value.
pub struct NodeView {
    pub name: Seq<char>,
    pub size: u64,
    pub files: u32,
    pub kind: u8,
    pub is_dir: bool,
    pub pending: bool,
    pub denied: bool,
    pub children: Seq<NodeView>,
}

/// A node and everything under it.
pub open spec fn node_view(node: Node) -> NodeView
    decreases node,
{
    NodeView {
        name: node.name@,
        size: node.size,
        files: node.files,
        kind: node.kind,
        is_dir: node.is_dir,
        pending: node.pending,
        denied: node.denied,
        children: Seq::new(
            node.children@.len(),
            |i: int|
                if 0 <= i < node.children@.len() {
                    node_view(node.children@[i])
                } else {
                    arbitrary()
                },
        ),
    }
}

impl View for Node {
    type V = NodeView;

    open spec fn view(&self) -> NodeView {
        node_view(*self)
    }
}

// ------------------------------------------------------------------- looking

/// The first child at or after `i` with this name.
pub open spec fn child_from(children: Seq<NodeView>, name: Seq<char>, i: int) -> Option<int>
    decreases children.len() - i,
{
    if i < 0 || i >= children.len() {
        None
    } else if children[i].name == name {
        Some(i)
    } else {
        child_from(children, name, i + 1)
    }
}

/// The first child with this name.
pub open spec fn child(node: NodeView, name: Seq<char>) -> Option<int> {
    child_from(node.children, name, 0)
}

/// The node at these names below `node`.
pub open spec fn at(node: NodeView, names: Seq<Seq<char>>) -> Option<NodeView>
    decreases names.len(),
{
    if names.len() == 0 {
        Some(node)
    } else {
        match child(node, names[0]) {
            None => None,
            Some(i) => at(node.children[i], names.skip(1)),
        }
    }
}

/// The node that these names reach, followed as far as they resolve.
pub open spec fn deepest(node: NodeView, names: Seq<Seq<char>>) -> NodeView
    decreases names.len(),
{
    if names.len() == 0 {
        node
    } else {
        match child(node, names[0]) {
            None => node,
            Some(i) => deepest(node.children[i], names.skip(1)),
        }
    }
}

/// Whether these names lead from folder to folder, all the way.
pub open spec fn is_folder_trail(node: NodeView, names: Seq<Seq<char>>) -> bool
    decreases names.len(),
{
    names.len() > 0 ==> match child(node, names[0]) {
        None => false,
        Some(i) => node.children[i].is_dir && is_folder_trail(node.children[i], names.skip(1)),
    }
}

// ------------------------------------------------------------------ changing

/// `a - b`, or nothing.
pub open spec fn less_size(a: u64, b: u64) -> u64 {
    if a >= b { (a - b) as u64 } else { 0 }
}

/// `a + b`, or the most there can be.
pub open spec fn more_size(a: u64, b: u64) -> u64 {
    if a + b <= u64::MAX { (a + b) as u64 } else { u64::MAX }
}

/// `a - b`, or nothing.
pub open spec fn less_files(a: u32, b: u32) -> u32 {
    if a >= b { (a - b) as u32 } else { 0 }
}

/// `a + b`, or the most there can be.
pub open spec fn more_files(a: u32, b: u32) -> u32 {
    if a + b <= u32::MAX { (a + b) as u32 } else { u32::MAX }
}

/// `node` with these children, and without what `gone` weighed.
pub open spec fn without(node: NodeView, children: Seq<NodeView>, gone: NodeView) -> NodeView {
    NodeView {
        children,
        size: less_size(node.size, gone.size),
        files: less_files(node.files, gone.files),
        ..node
    }
}

/// `node` with these children, and with what `come` weighs.
pub open spec fn with(node: NodeView, children: Seq<NodeView>, come: NodeView) -> NodeView {
    NodeView {
        children,
        size: more_size(node.size, come.size),
        files: more_files(node.files, come.files),
        ..node
    }
}

/// `node` without what is at these names, and what was there.
pub open spec fn detached(node: NodeView, names: Seq<Seq<char>>) -> Option<(NodeView, NodeView)>
    decreases names.len(),
{
    if names.len() == 0 {
        None
    } else {
        match child(node, names[0]) {
            None => None,
            Some(i) => if names.len() == 1 {
                Some((without(node, node.children.remove(i), node.children[i]), node.children[i]))
            } else {
                match detached(node.children[i], names.skip(1)) {
                    None => None,
                    Some((kept, gone)) => Some(
                        (without(node, node.children.update(i, kept), gone), gone),
                    ),
                }
            },
        }
    }
}

/// `node` with `come` put into the folder at these names.
pub open spec fn grafted(node: NodeView, names: Seq<Seq<char>>, come: NodeView) -> Option<NodeView>
    decreases names.len(),
{
    if names.len() == 0 {
        if node.is_dir {
            Some(with(node, node.children.push(come), come))
        } else {
            None
        }
    } else {
        match child(node, names[0]) {
            None => None,
            Some(i) => match grafted(node.children[i], names.skip(1), come) {
                None => None,
                Some(grown) => Some(with(node, node.children.update(i, grown), come)),
            },
        }
    }
}

/// `node` with what is at these names replaced. Unchanged where they do not resolve.
pub open spec fn replaced(node: NodeView, names: Seq<Seq<char>>, new: NodeView) -> NodeView
    decreases names.len(),
{
    if names.len() == 0 {
        new
    } else {
        match child(node, names[0]) {
            None => node,
            Some(i) => {
                let old_child = node.children[i];
                let new_child = replaced(old_child, names.skip(1), new);
                with(
                    without(node, node.children.update(i, new_child), old_child),
                    node.children.update(i, new_child),
                    new_child,
                )
            },
        }
    }
}

/// `node` after a step of the scan.
pub open spec fn stepped(node: NodeView, step: ScanStep) -> NodeView {
    match step {
        ScanStep::Closed { at, node: new } => replaced(node, path::names_view(at@), new@),
        ScanStep::Pace { .. } => node,
    }
}

/// `node` with nothing pending in it.
pub open spec fn sealed(node: NodeView) -> NodeView
    decreases node,
{
    NodeView {
        pending: false,
        children: Seq::new(
            node.children.len(),
            |i: int|
                if 0 <= i < node.children.len() {
                    sealed(node.children[i])
                } else {
                    arbitrary()
                },
        ),
        ..node
    }
}

/// The folders under `node` that the walk was not let into, outermost first. `trail` is how
/// `node` itself is written.
pub open spec fn refused(node: NodeView, trail: Seq<char>) -> Seq<Seq<char>>
    decreases node, node.children.len() + 1,
{
    (if node.denied { seq![trail] } else { seq![] }) + refused_among(
        node,
        trail,
        node.children.len(),
    )
}

/// The same, among the first `n` children of `node`.
pub open spec fn refused_among(node: NodeView, trail: Seq<char>, n: nat) -> Seq<Seq<char>>
    decreases node, n,
    when n <= node.children.len()
{
    if n == 0 {
        seq![]
    } else {
        let last = node.children[n - 1];
        refused_among(node, trail, (n - 1) as nat) + refused(last, trail + seq!['/'] + last.name)
    }
}

/// At most `limit` of `all`.
pub open spec fn at_most(all: Seq<Seq<char>>, limit: nat) -> Seq<Seq<char>> {
    if all.len() <= limit {
        all
    } else {
        all.take(limit as int)
    }
}

// ------------------------------------------------------------------ the node

fn size_less(a: u64, b: u64) -> (r: u64)
    ensures
        r == less_size(a, b),
{
    if a >= b { a - b } else { 0 }
}

fn size_more(a: u64, b: u64) -> (r: u64)
    ensures
        r == more_size(a, b),
{
    if a <= u64::MAX - b { a + b } else { u64::MAX }
}

fn files_less(a: u32, b: u32) -> (r: u32)
    ensures
        r == less_files(a, b),
{
    if a >= b { a - b } else { 0 }
}

fn files_more(a: u32, b: u32) -> (r: u32)
    ensures
        r == more_files(a, b),
{
    if a <= u32::MAX - b { a + b } else { u32::MAX }
}

impl Node {
    /// A folder with nothing in it yet.
    pub fn dir(name: String, kind: u8) -> (r: Node)
        ensures
            r@ == (NodeView {
                name: name@,
                size: 0,
                files: 0,
                kind,
                is_dir: true,
                pending: true,
                denied: false,
                children: seq![],
            }),
    {
        let r = Node {
            name,
            size: 0,
            files: 0,
            kind,
            is_dir: true,
            pending: true,
            denied: false,
            children: Vec::new(),
        };
        assert(r@.children =~= seq![]);
        r
    }

    /// The same node again, with everything under it.
    pub fn copy(&self) -> (r: Node)
        ensures
            r@ == self@,
        decreases self,
    {
        let mut children: Vec<Node> = Vec::new();
        let mut i: usize = 0;
        while i < self.children.len()
            invariant
                i <= self.children@.len(),
                children@.len() == i,
                forall|j: int| 0 <= j < i ==> (#[trigger] children@[j])@ == self.children@[j]@,
            decreases self.children@.len() - i,
        {
            let c: Node = self.children[i].copy();
            children.push(c);
            i += 1;
        }
        let r = Node {
            name: self.name.clone(),
            size: self.size,
            files: self.files,
            kind: self.kind,
            is_dir: self.is_dir,
            pending: self.pending,
            denied: self.denied,
            children,
        };
        assert(r@.children =~= self@.children);
        r
    }

    /// Where the first child with this name is.
    fn child_index(&self, name: &String) -> (r: Option<usize>)
        ensures
            match r {
                Some(i) => {
                    &&& i < self.children@.len()
                    &&& child(self@, name@) == Some(i as int)
                },
                None => child(self@, name@) is None,
            },
    {
        let mut i: usize = 0;
        while i < self.children.len()
            invariant
                i <= self.children@.len(),
                child(self@, name@) == child_from(self@.children, name@, i as int),
            decreases self.children@.len() - i,
        {
            assert(self@.children[i as int] == self.children@[i as int]@);
            assert(self.children@[i as int]@.name == self.children@[i as int].name@);
            if self.children[i].name == *name {
                return Some(i);
            }
            i += 1;
        }
        None
    }

    /// The child with this name.
    pub fn child_named(&self, name: &String) -> (r: Option<&Node>)
        ensures
            match r {
                Some(found) => child(self@, name@) is Some && found@ == self@.children[child(
                    self@,
                    name@,
                )->0],
                None => child(self@, name@) is None,
            },
    {
        match self.child_index(name) {
            Some(i) => Some(&self.children[i]),
            None => None,
        }
    }

    /// The node at these names below this one.
    pub fn at(&self, names: &Vec<String>) -> (r: Option<&Node>)
        ensures
            match r {
                Some(found) => at(self@, path::names_view(names@)) == Some(found@),
                None => at(self@, path::names_view(names@)) is None,
            },
    {
        let ghost all = path::names_view(names@);
        let mut node: &Node = self;
        let mut i: usize = 0;
        assert(all.skip(0) =~= all);
        while i < names.len()
            invariant
                all == path::names_view(names@),
                i <= names@.len(),
                at(self@, all) == at(node@, all.skip(i as int)),
            decreases names@.len() - i,
        {
            assert(all.skip(i as int)[0] == names@[i as int]@);
            assert(all.skip(i as int).skip(1) =~= all.skip(i + 1));
            match node.child_named(&names[i]) {
                Some(next) => {
                    node = next;
                },
                None => {
                    return None;
                },
            }
            i += 1;
        }
        Some(node)
    }

    /// The node that these names reach, followed as far as they resolve.
    pub fn deepest(&self, names: &Vec<String>) -> (r: &Node)
        ensures
            r@ == deepest(self@, path::names_view(names@)),
    {
        let ghost all = path::names_view(names@);
        let mut node: &Node = self;
        let mut i: usize = 0;
        assert(all.skip(0) =~= all);
        while i < names.len()
            invariant
                all == path::names_view(names@),
                i <= names@.len(),
                deepest(self@, all) == deepest(node@, all.skip(i as int)),
            decreases names@.len() - i,
        {
            assert(all.skip(i as int)[0] == names@[i as int]@);
            assert(all.skip(i as int).skip(1) =~= all.skip(i + 1));
            match node.child_named(&names[i]) {
                Some(next) => {
                    node = next;
                },
                None => {
                    return node;
                },
            }
            i += 1;
        }
        node
    }

    /// Whether these names lead from folder to folder, all the way.
    pub fn leads_to_folder(&self, names: &Vec<String>) -> (r: bool)
        ensures
            r == is_folder_trail(self@, path::names_view(names@)),
    {
        let ghost all = path::names_view(names@);
        let mut node: &Node = self;
        let mut i: usize = 0;
        assert(all.skip(0) =~= all);
        while i < names.len()
            invariant
                all == path::names_view(names@),
                i <= names@.len(),
                is_folder_trail(self@, all) == is_folder_trail(node@, all.skip(i as int)),
            decreases names@.len() - i,
        {
            assert(all.skip(i as int)[0] == names@[i as int]@);
            assert(all.skip(i as int).skip(1) =~= all.skip(i + 1));
            match node.child_named(&names[i]) {
                Some(next) => {
                    if !next.is_dir {
                        return false;
                    }
                    node = next;
                },
                None => {
                    return false;
                },
            }
            i += 1;
        }
        true
    }

    /// Take out what is at these names. The folders above it lose what it weighed.
    pub fn detach(&mut self, names: &Vec<String>) -> (r: Option<Node>)
        ensures
            match r {
                Some(gone) => detached(old(self)@, path::names_view(names@)) == Some(
                    (final(self)@, gone@),
                ),
                None => {
                    &&& detached(old(self)@, path::names_view(names@)) is None
                    &&& final(self)@ == old(self)@
                },
            },
    {
        assert(path::names_view(names@).skip(0) =~= path::names_view(names@));
        self.detach_from(names, 0)
    }

    fn detach_from(&mut self, names: &Vec<String>, depth: usize) -> (r: Option<Node>)
        requires
            depth <= names@.len(),
        ensures
            match r {
                Some(gone) => detached(old(self)@, path::names_view(names@).skip(depth as int))
                    == Some((final(self)@, gone@)),
                None => {
                    &&& detached(old(self)@, path::names_view(names@).skip(depth as int)) is None
                    &&& final(self)@ == old(self)@
                },
            },
        decreases names@.len() - depth,
    {
        let ghost here = path::names_view(names@).skip(depth as int);
        let ghost before = self@;
        if depth == names.len() {
            return None;
        }
        assert(here[0] == names@[depth as int]@);
        assert(here.skip(1) =~= path::names_view(names@).skip(depth + 1));
        let i = match self.child_index(&names[depth]) {
            None => {
                return None;
            },
            Some(i) => i,
        };
        if depth + 1 == names.len() {
            let gone: Node = self.children.remove(i);
            self.size = size_less(self.size, gone.size);
            self.files = files_less(self.files, gone.files);
            assert(self@.children =~= before.children.remove(i as int));
            Some(gone)
        } else {
            match self.children[i].detach_from(names, depth + 1) {
                None => {
                    assert(self@.children =~= before.children);
                    None
                },
                Some(gone) => {
                    self.size = size_less(self.size, gone.size);
                    self.files = files_less(self.files, gone.files);
                    assert(self@.children =~= before.children.update(
                        i as int,
                        (detached(before.children[i as int], here.skip(1))->0).0,
                    ));
                    Some(gone)
                },
            }
        }
    }

    /// Put `node` into the folder at these names. The folders above it gain what it weighs.
    /// False where there is no such folder, and then nothing changes.
    pub fn graft(&mut self, names: &Vec<String>, node: Node) -> (r: bool)
        ensures
            match grafted(old(self)@, path::names_view(names@), node@) {
                Some(grown) => r && final(self)@ == grown,
                None => !r && final(self)@ == old(self)@,
            },
    {
        let size: u64 = node.size;
        let files: u32 = node.files;
        assert(path::names_view(names@).skip(0) =~= path::names_view(names@));
        match self.graft_from(names, 0, size, files, node) {
            None => true,
            Some(_) => false,
        }
    }

    fn graft_from(
        &mut self,
        names: &Vec<String>,
        depth: usize,
        size: u64,
        files: u32,
        node: Node,
    ) -> (r: Option<Node>)
        requires
            depth <= names@.len(),
            size == node.size,
            files == node.files,
        ensures
            match grafted(old(self)@, path::names_view(names@).skip(depth as int), node@) {
                Some(grown) => r is None && final(self)@ == grown,
                None => r is Some && final(self)@ == old(self)@,
            },
        decreases names@.len() - depth,
    {
        let ghost here = path::names_view(names@).skip(depth as int);
        let ghost before = self@;
        let ghost come = node@;
        if depth == names.len() {
            if !self.is_dir {
                return Some(node);
            }
            self.children.push(node);
            self.size = size_more(self.size, size);
            self.files = files_more(self.files, files);
            assert(self@.children =~= before.children.push(come));
            return None;
        }
        assert(here[0] == names@[depth as int]@);
        assert(here.skip(1) =~= path::names_view(names@).skip(depth + 1));
        let i = match self.child_index(&names[depth]) {
            None => {
                return Some(node);
            },
            Some(i) => i,
        };
        match self.children[i].graft_from(names, depth + 1, size, files, node) {
            Some(back) => {
                assert(self@.children =~= before.children);
                Some(back)
            },
            None => {
                self.size = size_more(self.size, size);
                self.files = files_more(self.files, files);
                assert(self@.children =~= before.children.update(
                    i as int,
                    grafted(before.children[i as int], here.skip(1), come)->0,
                ));
                None
            },
        }
    }

    /// Take a step of the scan.
    pub fn apply(&mut self, step: ScanStep)
        ensures
            final(self)@ == stepped(old(self)@, step),
    {
        match step {
            ScanStep::Closed { at, node } => {
                assert(path::names_view(at@).skip(0) =~= path::names_view(at@));
                self.replace_from(&at, 0, node);
            },
            ScanStep::Pace { .. } => {},
        }
    }

    fn replace_from(&mut self, names: &Vec<String>, depth: usize, node: Node)
        requires
            depth <= names@.len(),
        ensures
            final(self)@ == replaced(
                old(self)@,
                path::names_view(names@).skip(depth as int),
                node@,
            ),
        decreases names@.len() - depth,
    {
        let ghost here = path::names_view(names@).skip(depth as int);
        let ghost before = self@;
        let ghost new = node@;
        if depth == names.len() {
            *self = node;
            return;
        }
        assert(here[0] == names@[depth as int]@);
        assert(here.skip(1) =~= path::names_view(names@).skip(depth + 1));
        let i = match self.child_index(&names[depth]) {
            None => {
                return;
            },
            Some(i) => i,
        };
        let old_size: u64 = self.children[i].size;
        let old_files: u32 = self.children[i].files;
        self.children[i].replace_from(names, depth + 1, node);
        let new_size: u64 = self.children[i].size;
        let new_files: u32 = self.children[i].files;
        self.size = size_more(size_less(self.size, old_size), new_size);
        self.files = files_more(files_less(self.files, old_files), new_files);
        assert(self@.children =~= before.children.update(
            i as int,
            replaced(before.children[i as int], here.skip(1), new),
        ));
    }

    /// Nothing is growing any more, so nothing is still pending.
    pub fn seal(&mut self)
        ensures
            final(self)@ == sealed(old(self)@),
        decreases *old(self),
    {
        let ghost before = *self;
        self.pending = false;
        let mut i: usize = 0;
        while i < self.children.len()
            invariant
                i <= self.children@.len(),
                self.children@.len() == before.children@.len(),
                self.name == before.name,
                self.size == before.size,
                self.files == before.files,
                self.kind == before.kind,
                self.is_dir == before.is_dir,
                !self.pending,
                self.denied == before.denied,
                before == *old(self),
                forall|j: int|
                    0 <= j < i ==> (#[trigger] self.children@[j])@ == sealed(before.children@[j]@),
                forall|j: int|
                    i <= j < self.children@.len() ==> #[trigger] self.children@[j]
                        == before.children@[j],
            decreases self.children@.len() - i,
        {
            self.children[i].seal();
            i += 1;
        }
        assert(self@.children =~= sealed(before@).children);
    }

    /// At most `limit` of the folders that the walk was not let into, outermost first, each
    /// written from this one down.
    pub fn denied_paths(&self, limit: usize) -> (r: Vec<String>)
        ensures
            path::names_view(r@) == at_most(refused(self@, self@.name), limit as nat),
    {
        let mut out: Vec<String> = Vec::new();
        self.push_denied(&self.name, limit, &mut out);
        assert(path::names_view(Seq::<String>::empty()) + refused(self@, self@.name) =~= refused(
            self@,
            self@.name,
        ));
        out
    }

    fn push_denied(&self, trail: &String, limit: usize, out: &mut Vec<String>)
        requires
            old(out)@.len() <= limit,
        ensures
            path::names_view(final(out)@) == at_most(
                path::names_view(old(out)@) + refused(self@, trail@),
                limit as nat,
            ),
            final(out)@.len() <= limit,
        decreases self,
    {
        let ghost start = path::names_view(out@);
        let ghost head: Seq<Seq<char>> = if self.denied { seq![trail@] } else { seq![] };
        if self.denied && out.len() < limit {
            out.push(trail.clone());
        }
        assert(path::names_view(out@) =~= at_most(
            start + (head + refused_among(self@, trail@, 0)),
            limit as nat,
        ));
        let mut i: usize = 0;
        while i < self.children.len()
            invariant
                i <= self.children@.len(),
                out@.len() <= limit,
                path::names_view(out@) == at_most(
                    start + (head + refused_among(self@, trail@, i as nat)),
                    limit as nat,
                ),
            decreases self.children@.len() - i,
        {
            let ghost so_far = start + (head + refused_among(self@, trail@, i as nat));
            let child = &self.children[i];
            let mut below: String = trail.clone();
            below.push('/');
            below.append(child.name.as_str());
            assert(below@ =~= trail@ + seq!['/'] + child.name@);
            child.push_denied(&below, limit, out);
            proof {
                let more = refused(child@, below@);
                assert(refused_among(self@, trail@, (i + 1) as nat) == refused_among(
                    self@,
                    trail@,
                    i as nat,
                ) + more);
                lemma_at_most(so_far, more, limit as nat);
                assert(so_far + more =~= start + (head + refused_among(
                    self@,
                    trail@,
                    (i + 1) as nat,
                )));
            }
            i += 1;
        }
    }
}

/// Cutting twice is cutting once.
proof fn lemma_at_most(a: Seq<Seq<char>>, b: Seq<Seq<char>>, limit: nat)
    ensures
        at_most(at_most(a, limit) + b, limit) == at_most(a + b, limit),
{
    assert(at_most(at_most(a, limit) + b, limit) =~= at_most(a + b, limit));
}

} // verus!
