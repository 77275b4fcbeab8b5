//! Paths, as the list of their parts.
//!
//! What the parts of a path are is the platform's business, and so is which separators stand
//! between them. A map compares paths part by part, strips one off another, names the last
//! part, adds names at the end, and shows a path the way it was written. This is that and
//! nothing more.

use vstd::prelude::*;
use vstd::string::*;
use crate::text;

verus! {

/// A name on the disk.
#[derive(Clone, Debug)]
pub enum Name {
    /// One that is text.
    Text(String),
    /// One that is not: the platform's own units, and what is shown of them.
    Odd { units: Vec<u16>, shown: String },
}

/// One part of a path.
#[derive(Clone, Debug)]
pub enum Part {
    /// A drive or a share that the path starts from: what it is compared by, how it is
    /// written, and whether it is a bare drive, which no separator follows.
    Prefix { key: Name, name: Name, drive: bool },
    /// The root of the file system, as it is written.
    Root { written: String },
    /// A leading `.`.
    Current,
    /// A `..`.
    Parent,
    /// A name.
    Name(Name),
}

/// A part, and what stands between it and the part before it.
#[derive(Clone, Debug)]
pub struct Step {
    pub lead: String,
    pub part: Part,
}

/// A path. Two paths are the same where their parts are, however they are written.
#[derive(Clone, Debug)]
pub struct FilePath {
    pub steps: Vec<Step>,
    /// What stands after the last part.
    pub tail: String,
    /// The platform's separator.
    pub bar: char,
}

// -------------------------------------------------------------------- models

/// A [`Name`] as a value.
pub enum NameView {
    Text(Seq<char>),
    Odd { units: Seq<u16>, shown: Seq<char> },
}

/// A [`Part`] as a value.
pub enum PartView {
    Prefix { key: NameView, name: NameView, drive: bool },
    Root { written: Seq<char> },
    Current,
    Parent,
    Name(NameView),
}

/// A [`Step`] as a value.
pub struct StepView {
    pub lead: Seq<char>,
    pub part: PartView,
}

/// A [`FilePath`] as a value.
pub struct PathView {
    pub steps: Seq<StepView>,
    pub tail: Seq<char>,
    pub bar: char,
}

impl View for Name {
    type V = NameView;

    open spec fn view(&self) -> NameView {
        match self {
            Name::Text(text) => NameView::Text(text@),
            Name::Odd { units, shown } => NameView::Odd { units: units@, shown: shown@ },
        }
    }
}

impl View for Part {
    type V = PartView;

    open spec fn view(&self) -> PartView {
        match self {
            Part::Prefix { key, name, drive } => PartView::Prefix {
                key: key@,
                name: name@,
                drive: *drive,
            },
            Part::Root { written } => PartView::Root { written: written@ },
            Part::Current => PartView::Current,
            Part::Parent => PartView::Parent,
            Part::Name(name) => PartView::Name(name@),
        }
    }
}

impl View for Step {
    type V = StepView;

    open spec fn view(&self) -> StepView {
        StepView { lead: self.lead@, part: self.part@ }
    }
}

pub open spec fn steps_view(steps: Seq<Step>) -> Seq<StepView> {
    Seq::new(steps.len(), |i: int| steps[i]@)
}

pub open spec fn parts_view(parts: Seq<Part>) -> Seq<PartView> {
    Seq::new(parts.len(), |i: int| parts[i]@)
}

impl View for FilePath {
    type V = PathView;

    open spec fn view(&self) -> PathView {
        PathView { steps: steps_view(self.steps@), tail: self.tail@, bar: self.bar }
    }
}

/// Names, as text.
pub open spec fn names_view(names: Seq<String>) -> Seq<Seq<char>> {
    Seq::new(names.len(), |i: int| names[i]@)
}

// ---------------------------------------------------------------- comparing

/// What a name is compared by.
pub enum NameKey {
    Text(Seq<char>),
    Odd(Seq<u16>),
}

/// What a part is compared by.
pub enum PartKey {
    Prefix(NameKey),
    Root,
    Current,
    Parent,
    Name(NameKey),
}

pub open spec fn name_key(name: NameView) -> NameKey {
    match name {
        NameView::Text(text) => NameKey::Text(text),
        NameView::Odd { units, .. } => NameKey::Odd(units),
    }
}

pub open spec fn part_key(part: PartView) -> PartKey {
    match part {
        PartView::Prefix { key, .. } => PartKey::Prefix(name_key(key)),
        PartView::Root { .. } => PartKey::Root,
        PartView::Current => PartKey::Current,
        PartView::Parent => PartKey::Parent,
        PartView::Name(name) => PartKey::Name(name_key(name)),
    }
}

/// What a path is compared by: its parts, and nothing of how they are written.
pub open spec fn keys(path: PathView) -> Seq<PartKey> {
    Seq::new(path.steps.len(), |i: int| part_key(path.steps[i].part))
}

/// Whether two paths are the same.
pub open spec fn same(a: PathView, b: PathView) -> bool {
    keys(a) == keys(b)
}

// ------------------------------------------------------------------- showing

/// What is shown of a name.
pub open spec fn name_text(name: NameView) -> Seq<char> {
    match name {
        NameView::Text(text) => text,
        NameView::Odd { shown, .. } => shown,
    }
}

/// A part, as it is written.
pub open spec fn part_text(part: PartView) -> Seq<char> {
    match part {
        PartView::Prefix { name, .. } => name_text(name),
        PartView::Root { written } => written,
        PartView::Current => "."@,
        PartView::Parent => ".."@,
        PartView::Name(name) => name_text(name),
    }
}

/// The parts, each as it is written.
pub open spec fn part_texts(parts: Seq<PartView>) -> Seq<Seq<char>> {
    Seq::new(parts.len(), |i: int| part_text(parts[i]))
}

/// Steps, as they are written.
pub open spec fn steps_text(steps: Seq<StepView>) -> Seq<char>
    decreases steps.len(),
{
    if steps.len() == 0 {
        seq![]
    } else {
        steps_text(steps.drop_last()) + steps.last().lead + part_text(steps.last().part)
    }
}

/// A path, as it is written.
pub open spec fn path_text(path: PathView) -> Seq<char> {
    steps_text(path.steps) + path.tail
}

// ------------------------------------------------------------------ dividing

/// The empty path.
pub open spec fn nowhere() -> PathView {
    PathView { steps: seq![], tail: seq![], bar: '/' }
}

/// Steps without what stands before the first of them.
pub open spec fn unled(steps: Seq<StepView>) -> Seq<StepView> {
    if steps.len() == 0 {
        steps
    } else {
        steps.update(0, StepView { lead: seq![], part: steps[0].part })
    }
}

/// What is left of `path` below `base`. `None` where `path` is not below it.
pub open spec fn below(path: PathView, base: PathView) -> Option<PathView> {
    let n = base.steps.len() as int;
    if n <= path.steps.len() && keys(path).take(n) == keys(base) {
        Some(PathView { steps: unled(path.steps.skip(n)), tail: seq![], bar: path.bar })
    } else {
        None
    }
}

/// What is shown of the name at the end of a path. `None` where it does not end in a name.
pub open spec fn last_name(path: PathView) -> Option<Seq<char>> {
    if path.steps.len() == 0 {
        None
    } else {
        match path.steps.last().part {
            PartView::Name(name) => Some(name_text(name)),
            _ => None,
        }
    }
}

/// The path without its last part. `None` where there is none, or where it is a root.
pub open spec fn parent(path: PathView) -> Option<PathView> {
    if path.steps.len() == 0 || path.steps.last().part is Root || path.steps.last().part is Prefix {
        None
    } else {
        Some(PathView { steps: path.steps.drop_last(), tail: seq![], bar: path.bar })
    }
}

/// A part by itself, as text: of a name that is none, what is shown of it; of a root, the
/// platform's separator.
pub open spec fn plain(part: PartView, bar: char) -> PartView {
    match part {
        PartView::Root { .. } => PartView::Root { written: seq![bar] },
        PartView::Name(name) => PartView::Name(NameView::Text(name_text(name))),
        other => other,
    }
}

/// The parts of a path, each by itself.
pub open spec fn plain_parts(path: PathView) -> Seq<PartView> {
    Seq::new(path.steps.len(), |i: int| plain(path.steps[i].part, path.bar))
}

// ------------------------------------------------------------------- joining

/// Whether the path is a drive and nothing else.
pub open spec fn is_bare_drive(path: PathView) -> bool {
    &&& path.steps.len() == 1
    &&& path.tail.len() == 0
    &&& path.steps[0].part matches PartView::Prefix { drive, .. } && drive
}

/// What goes between `path` and a part that is added to it: a separator, unless there is one,
/// or nothing to separate, or the part is where a path starts.
pub open spec fn gap(path: PathView, part: PartView) -> Seq<char> {
    let written = path_text(path);
    if part is Root || part is Prefix || written.len() == 0 || written.last() == path.bar
        || written.last() == '/' || is_bare_drive(path) {
        seq![]
    } else {
        seq![path.bar]
    }
}

/// The path with a part added at its end.
pub open spec fn pushed(path: PathView, part: PartView) -> PathView {
    PathView {
        steps: path.steps.push(StepView { lead: path.tail + gap(path, part), part }),
        tail: seq![],
        bar: path.bar,
    }
}

/// The path with parts added at its end.
pub open spec fn joined(path: PathView, parts: Seq<PartView>) -> PathView
    decreases parts.len(),
{
    if parts.len() == 0 {
        path
    } else {
        pushed(joined(path, parts.drop_last()), parts.last())
    }
}

/// The parts of a joined path are those of the path, and those that were added.
pub proof fn joining_adds_parts(path: PathView, parts: Seq<PartView>)
    ensures
        keys(joined(path, parts)) == keys(path) + Seq::new(
            parts.len(),
            |i: int| part_key(parts[i]),
        ),
    decreases parts.len(),
{
    let added = Seq::new(parts.len(), |i: int| part_key(parts[i]));
    if parts.len() > 0 {
        joining_adds_parts(path, parts.drop_last());
        let before = Seq::new(parts.drop_last().len(), |i: int| part_key(parts.drop_last()[i]));
        assert(added =~= before.push(part_key(parts.last())));
        assert(keys(joined(path, parts)) =~= keys(joined(path, parts.drop_last())).push(
            part_key(parts.last()),
        ));
    }
    assert(keys(joined(path, parts)) =~= keys(path) + added);
}

/// What was joined below a path strips off it again: the parts that were added are left.
pub proof fn joining_strips_off(path: PathView, parts: Seq<PartView>)
    ensures
        below(joined(path, parts), path) is Some,
        keys(below(joined(path, parts), path)->0) == Seq::new(
            parts.len(),
            |i: int| part_key(parts[i]),
        ),
{
    joining_adds_parts(path, parts);
    let whole = joined(path, parts);
    let n = path.steps.len() as int;
    assert(keys(whole).len() == n + parts.len());
    assert(keys(whole).take(n) =~= keys(path));
    let rest = below(whole, path)->0;
    assert forall|i: int| 0 <= i < parts.len() implies keys(rest)[i] == part_key(parts[i]) by {
        assert(keys(rest)[i] == keys(whole)[n + i]);
    }
    assert(keys(rest) =~= Seq::new(parts.len(), |i: int| part_key(parts[i])));
}

// ------------------------------------------------------------------ the code

impl Name {
    fn copy(&self) -> (r: Name)
        ensures
            r@ == self@,
    {
        match self {
            Name::Text(text) => Name::Text(text.clone()),
            Name::Odd { units, shown } => Name::Odd {
                units: copy_units(units),
                shown: shown.clone(),
            },
        }
    }

    fn same(&self, other: &Name) -> (r: bool)
        ensures
            r == (name_key(self@) == name_key(other@)),
    {
        match (self, other) {
            (Name::Text(a), Name::Text(b)) => *a == *b,
            (Name::Odd { units: a, .. }, Name::Odd { units: b, .. }) => same_units(a, b),
            _ => false,
        }
    }

    /// What is shown of the name.
    pub fn text(&self) -> (r: String)
        ensures
            r@ == name_text(self@),
    {
        match self {
            Name::Text(text) => text.clone(),
            Name::Odd { shown, .. } => shown.clone(),
        }
    }
}

fn copy_units(units: &Vec<u16>) -> (r: Vec<u16>)
    ensures
        r@ == units@,
{
    let mut r: Vec<u16> = Vec::new();
    let mut i: usize = 0;
    while i < units.len()
        invariant
            i <= units@.len(),
            r@ == units@.take(i as int),
        decreases units@.len() - i,
    {
        r.push(units[i]);
        i += 1;
    }
    assert(r@ =~= units@);
    r
}

fn same_units(a: &Vec<u16>, b: &Vec<u16>) -> (r: bool)
    ensures
        r == (a@ == b@),
{
    if a.len() != b.len() {
        return false;
    }
    let mut i: usize = 0;
    while i < a.len()
        invariant
            a@.len() == b@.len(),
            i <= a@.len(),
            forall|j: int| 0 <= j < i ==> a@[j] == b@[j],
        decreases a@.len() - i,
    {
        if a[i] != b[i] {
            return false;
        }
        i += 1;
    }
    assert(a@ =~= b@);
    true
}

impl Part {
    /// The same part again.
    pub fn copy(&self) -> (r: Part)
        ensures
            r@ == self@,
    {
        match self {
            Part::Prefix { key, name, drive } => Part::Prefix {
                key: key.copy(),
                name: name.copy(),
                drive: *drive,
            },
            Part::Root { written } => Part::Root { written: written.clone() },
            Part::Current => Part::Current,
            Part::Parent => Part::Parent,
            Part::Name(name) => Part::Name(name.copy()),
        }
    }

    fn same(&self, other: &Part) -> (r: bool)
        ensures
            r == (part_key(self@) == part_key(other@)),
    {
        match (self, other) {
            (Part::Prefix { key: a, .. }, Part::Prefix { key: b, .. }) => a.same(b),
            (Part::Root { .. }, Part::Root { .. }) => true,
            (Part::Current, Part::Current) => true,
            (Part::Parent, Part::Parent) => true,
            (Part::Name(a), Part::Name(b)) => a.same(b),
            _ => false,
        }
    }

    /// The part, as it is written.
    pub fn text(&self) -> (r: String)
        ensures
            r@ == part_text(self@),
    {
        match self {
            Part::Prefix { name, .. } => name.text(),
            Part::Root { written } => written.clone(),
            Part::Current => ".".to_owned(),
            Part::Parent => "..".to_owned(),
            Part::Name(name) => name.text(),
        }
    }

    fn plain(&self, bar: char) -> (r: Part)
        ensures
            r@ == plain(self@, bar),
    {
        match self {
            Part::Root { .. } => {
                let mut written = String::new();
                written.push(bar);
                assert(written@ =~= seq![bar]);
                Part::Root { written }
            },
            Part::Name(name) => Part::Name(Name::Text(name.text())),
            other => other.copy(),
        }
    }
}

/// The parts, each as it is written.
pub fn texts_of(parts: &Vec<Part>) -> (r: Vec<String>)
    ensures
        names_view(r@) == part_texts(parts_view(parts@)),
{
    let mut r: Vec<String> = Vec::new();
    let mut i: usize = 0;
    while i < parts.len()
        invariant
            i <= parts@.len(),
            r@.len() == i,
            forall|j: int| 0 <= j < i ==> (#[trigger] r@[j])@ == part_text(parts@[j]@),
        decreases parts@.len() - i,
    {
        r.push(parts[i].text());
        i += 1;
    }
    assert(names_view(r@) =~= part_texts(parts_view(parts@)));
    r
}

impl Step {
    fn copy(&self) -> (r: Step)
        ensures
            r@ == self@,
    {
        Step { lead: self.lead.clone(), part: self.part.copy() }
    }
}

/// The steps `from..to`.
fn copy_steps(steps: &Vec<Step>, from: usize, to: usize) -> (r: Vec<Step>)
    requires
        from <= to <= steps@.len(),
    ensures
        steps_view(r@) == steps_view(steps@).subrange(from as int, to as int),
{
    let mut r: Vec<Step> = Vec::new();
    let mut i: usize = from;
    while i < to
        invariant
            from <= i <= to <= steps@.len(),
            r@.len() == i - from,
            forall|j: int| 0 <= j < r@.len() ==> (#[trigger] r@[j])@ == steps@[from + j]@,
        decreases to - i,
    {
        r.push(steps[i].copy());
        i += 1;
    }
    assert(steps_view(r@) =~= steps_view(steps@).subrange(from as int, to as int));
    r
}

impl FilePath {
    /// The empty path.
    pub fn new() -> (r: FilePath)
        ensures
            r@ == nowhere(),
    {
        let r = FilePath { steps: Vec::new(), tail: String::new(), bar: '/' };
        assert(r@.steps =~= seq![]);
        assert(r@.tail =~= seq![]);
        r
    }

    /// The same path again, written in the same way.
    pub fn copy(&self) -> (r: FilePath)
        ensures
            r@ == self@,
    {
        let steps = copy_steps(&self.steps, 0, self.steps.len());
        assert(steps_view(steps@) =~= steps_view(self.steps@));
        FilePath { steps, tail: self.tail.clone(), bar: self.bar }
    }

    /// Whether the two paths are the same, part by part.
    pub fn same(&self, other: &FilePath) -> (r: bool)
        ensures
            r == same(self@, other@),
    {
        if self.steps.len() != other.steps.len() {
            assert(keys(self@).len() != keys(other@).len());
            return false;
        }
        let r = self.starts_with(other);
        assert(keys(self@).take(other@.steps.len() as int) =~= keys(self@));
        r
    }

    /// Whether the first parts of the path are those of `base`.
    fn starts_with(&self, base: &FilePath) -> (r: bool)
        requires
            base@.steps.len() <= self@.steps.len(),
        ensures
            r == (keys(self@).take(base@.steps.len() as int) == keys(base@)),
    {
        let n = base.steps.len();
        let mut i: usize = 0;
        while i < n
            invariant
                n == base.steps@.len(),
                n <= self.steps@.len(),
                i <= n,
                forall|j: int| 0 <= j < i ==> keys(self@)[j] == keys(base@)[j],
            decreases n - i,
        {
            assert(keys(self@)[i as int] == part_key(self.steps@[i as int].part@));
            assert(keys(base@)[i as int] == part_key(base.steps@[i as int].part@));
            if !self.steps[i].part.same(&base.steps[i].part) {
                assert(keys(self@).take(n as int)[i as int] != keys(base@)[i as int]);
                return false;
            }
            i += 1;
        }
        assert(keys(self@).take(n as int) =~= keys(base@));
        true
    }

    /// Whether the path has no part at all.
    pub fn is_empty(&self) -> (r: bool)
        ensures
            r == (self@.steps.len() == 0),
    {
        self.steps.len() == 0
    }

    /// What is left of the path below `base`. `None` where it is not below it.
    pub fn strip(&self, base: &FilePath) -> (r: Option<FilePath>)
        ensures
            match r {
                Some(rest) => below(self@, base@) == Some(rest@),
                None => below(self@, base@) is None,
            },
    {
        let n = base.steps.len();
        if n > self.steps.len() || !self.starts_with(base) {
            return None;
        }
        let mut steps = copy_steps(&self.steps, n, self.steps.len());
        let ghost led = steps_view(steps@);
        assert(led =~= self@.steps.skip(n as int));
        if steps.len() > 0 {
            steps[0].lead = String::new();
            assert(steps@[0].lead@ =~= seq![]);
        }
        assert(steps_view(steps@) =~= unled(led));
        let rest = FilePath { steps, tail: String::new(), bar: self.bar };
        assert(rest@.tail =~= seq![]);
        Some(rest)
    }

    /// The parts of the path, each by itself.
    pub fn plain_parts(&self) -> (r: Vec<Part>)
        ensures
            parts_view(r@) == plain_parts(self@),
    {
        let mut r: Vec<Part> = Vec::new();
        let mut i: usize = 0;
        while i < self.steps.len()
            invariant
                i <= self.steps@.len(),
                r@.len() == i,
                forall|j: int|
                    0 <= j < i ==> (#[trigger] r@[j])@ == plain(self.steps@[j].part@, self.bar),
            decreases self.steps@.len() - i,
        {
            r.push(self.steps[i].part.plain(self.bar));
            i += 1;
        }
        assert(parts_view(r@) =~= plain_parts(self@));
        r
    }

    /// What is shown of the name at the end of the path.
    pub fn file_name(&self) -> (r: Option<String>)
        ensures
            match r {
                Some(name) => last_name(self@) == Some(name@),
                None => last_name(self@) is None,
            },
    {
        let n = self.steps.len();
        if n == 0 {
            return None;
        }
        assert(self@.steps.last() == self.steps@[n - 1]@);
        match &self.steps[n - 1].part {
            Part::Name(name) => Some(name.text()),
            _ => None,
        }
    }

    /// The path without its last part.
    pub fn parent(&self) -> (r: Option<FilePath>)
        ensures
            match r {
                Some(path) => parent(self@) == Some(path@),
                None => parent(self@) is None,
            },
    {
        let n = self.steps.len();
        if n == 0 {
            return None;
        }
        assert(self@.steps.last() == self.steps@[n - 1]@);
        match &self.steps[n - 1].part {
            Part::Root { .. } => {
                return None;
            },
            Part::Prefix { .. } => {
                return None;
            },
            _ => {},
        }
        let steps = copy_steps(&self.steps, 0, n - 1);
        assert(steps_view(steps@) =~= self@.steps.drop_last());
        let path = FilePath { steps, tail: String::new(), bar: self.bar };
        assert(path@.tail =~= seq![]);
        Some(path)
    }

    /// Add a part at the end, behind a separator where one is due.
    pub fn push(&mut self, part: Part)
        ensures
            final(self)@ == pushed(old(self)@, part@),
    {
        let ghost before = self@;
        let mut lead = self.tail.clone();
        if self.needs_bar(&part) {
            lead.push(self.bar);
        }
        assert(lead@ =~= before.tail + gap(before, part@));
        self.steps.push(Step { lead, part });
        self.tail = String::new();
        assert(self@.steps =~= pushed(before, part@).steps);
        assert(self@.tail =~= seq![]);
    }

    fn needs_bar(&self, part: &Part) -> (r: bool)
        ensures
            gap(self@, part@) == (if r {
                seq![self@.bar]
            } else {
                seq![]
            }),
    {
        match part {
            Part::Root { .. } => {
                return false;
            },
            Part::Prefix { .. } => {
                return false;
            },
            _ => {},
        }
        let written: Vec<char> = text::chars_of(self.text().as_str());
        let n = written.len();
        if n == 0 || written[n - 1] == self.bar || written[n - 1] == '/' {
            return false;
        }
        if self.steps.len() == 1 && self.tail.as_str().is_empty() {
            assert(self@.steps[0] == self.steps@[0]@);
            if let Part::Prefix { drive, .. } = &self.steps[0].part {
                return !*drive;
            }
        }
        true
    }

    /// The path, as it is written.
    pub fn text(&self) -> (r: String)
        ensures
            r@ == path_text(self@),
    {
        let ghost all = self@.steps;
        let mut r = String::new();
        let mut i: usize = 0;
        assert(r@ =~= steps_text(all.take(0)));
        while i < self.steps.len()
            invariant
                i <= self.steps@.len(),
                all == self@.steps,
                r@ == steps_text(all.take(i as int)),
            decreases self.steps@.len() - i,
        {
            let ghost so_far = all.take(i + 1);
            assert(so_far.drop_last() =~= all.take(i as int));
            assert(so_far.last() == self.steps@[i as int]@);
            r.append(self.steps[i].lead.as_str());
            let part = self.steps[i].part.text();
            r.append(part.as_str());
            assert(r@ =~= steps_text(so_far));
            i += 1;
        }
        assert(all.take(all.len() as int) =~= all);
        r.append(self.tail.as_str());
        r
    }
}

impl PartialEq for FilePath {
    fn eq(&self, other: &FilePath) -> (r: bool) {
        self.same(other)
    }
}

impl vstd::std_specs::cmp::PartialEqSpecImpl for FilePath {
    open spec fn obeys_eq_spec() -> bool {
        true
    }

    open spec fn eq_spec(&self, other: &FilePath) -> bool {
        same(self@, other@)
    }
}

impl Eq for FilePath {

}

} // verus!
