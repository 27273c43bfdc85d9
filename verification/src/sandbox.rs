//! The confinement policy as data: which roots may be written, and what is subtracted from them.
//! Paths are compared by their parts and never looked up.
use crate::text;
use vstd::prelude::*;
use vstd::string::*;

verus! {

/// Name of the policy without confinement.
pub const FULL_ACCESS_ID: &'static str = "full-access";

/// Name of the policy that allows no write.
pub const READ_ONLY_ID: &'static str = "read-only";

/// Name of the policy that confines writes to roots.
pub const WORKSPACE_WRITE_ID: &'static str = "workspace-write";

// ---------------------------------------------------------------- paths

/// One part of a path.
#[derive(Debug, PartialEq, Eq)]
pub enum PathPart {
    Root,
    Current,
    Parent,
    Name(String),
}

/// What a part of a path is.
pub enum Part {
    Root,
    Current,
    Parent,
    Name(Seq<char>),
}

impl View for PathPart {
    type V = Part;

    open spec fn view(&self) -> Part {
        match self {
            PathPart::Root => Part::Root,
            PathPart::Current => Part::Current,
            PathPart::Parent => Part::Parent,
            PathPart::Name(name) => Part::Name(name@),
        }
    }
}

pub open spec fn part_views(parts: Seq<PathPart>) -> Seq<Part> {
    parts.map_values(|part: PathPart| part@)
}

/// The index of the first slash at or after `from`, or the length.
pub open spec fn next_slash(s: Seq<char>, from: int) -> int
    decreases s.len() - from,
{
    if from < 0 || from >= s.len() || s[from] == '/' {
        from
    } else {
        next_slash(s, from + 1)
    }
}

/// What one piece between slashes stands for. An empty piece is nothing, and a dot is nothing but
/// at the very front of a relative path.
pub open spec fn piece_part(piece: Seq<char>, front: bool) -> Seq<Part> {
    if piece.len() == 0 {
        seq![]
    } else if piece == "."@ {
        if front {
            seq![Part::Current]
        } else {
            seq![]
        }
    } else if piece == ".."@ {
        seq![Part::Parent]
    } else {
        seq![Part::Name(piece)]
    }
}

/// The parts of a path from the index `from` on.
pub open spec fn parts_from(s: Seq<char>, from: int) -> Seq<Part>
    decreases s.len() + 1 - from,
{
    if from < 0 || from >= s.len() {
        seq![]
    } else {
        let end = next_slash(s, from);
        if from <= end <= s.len() {
            piece_part(s.subrange(from, end), from == 0) + parts_from(s, end + 1)
        } else {
            seq![]
        }
    }
}

/// The parts of a path: the root where it begins with a slash, then its pieces.
pub open spec fn parts(s: Seq<char>) -> Seq<Part> {
    if s.len() > 0 && s[0] == '/' {
        seq![Part::Root] + parts_from(s, 1)
    } else {
        parts_from(s, 0)
    }
}

/// The parts with `.` and `..` resolved, without looking at any file.
pub open spec fn resolved(list: Seq<Part>) -> Seq<Part>
    decreases list.len(),
{
    if list.len() == 0 {
        seq![]
    } else {
        let before = resolved(list.drop_last());
        match list.last() {
            Part::Root => seq![Part::Root],
            Part::Current => before,
            Part::Parent => if before.len() > 0 && before.last() is Name {
                before.drop_last()
            } else {
                before
            },
            Part::Name(name) => before.push(Part::Name(name)),
        }
    }
}

/// The text of resolved parts.
pub open spec fn path_text(list: Seq<Part>) -> Seq<char>
    decreases list.len(),
{
    if list.len() == 0 {
        seq![]
    } else {
        let before = path_text(list.drop_last());
        match list.last() {
            Part::Root => seq!['/'],
            Part::Name(name) => if list.len() == 1 || list[list.len() - 2] is Root {
                before + name
            } else {
                before + seq!['/'] + name
            },
            _ => before,
        }
    }
}

pub open spec fn starts(list: Seq<Part>, prefix: Seq<Part>) -> bool {
    prefix.len() <= list.len() && list.take(prefix.len() as int) == prefix
}

proof fn lemma_next_slash(s: Seq<char>, from: int)
    requires
        0 <= from <= s.len(),
    ensures
        from <= next_slash(s, from) <= s.len(),
    decreases s.len() - from,
{
    if from < s.len() && s[from] != '/' {
        lemma_next_slash(s, from + 1);
    }
}

fn find_slash(chars: &Vec<char>, from: usize) -> (end: usize)
    requires
        from <= chars.len(),
    ensures
        end == next_slash(chars@, from as int),
        from <= end <= chars.len(),
{
    let mut i: usize = from;
    while i < chars.len() && chars[i] != '/'
        invariant
            from <= i <= chars.len(),
            next_slash(chars@, from as int) == next_slash(chars@, i as int),
        decreases chars.len() - i,
    {
        i += 1;
    }
    i
}

/// The parts of a path.
pub fn path_parts(path: &str) -> (list: Vec<PathPart>)
    ensures
        part_views(list@) == parts(path@),
{
    let chars = text::to_chars(path);
    let mut list: Vec<PathPart> = Vec::new();
    let mut from: usize = 0;
    assert(part_views(list@) =~= Seq::<Part>::empty());
    assert(Seq::<Part>::empty() + parts_from(chars@, 0) =~= parts_from(chars@, 0));
    if chars.len() > 0 && chars[0] == '/' {
        list.push(PathPart::Root);
        from = 1;
        assert(part_views(list@) =~= seq![Part::Root]);
    }
    while from < chars.len()
        invariant
            chars@ == path@,
            part_views(list@) + parts_from(chars@, from as int) == parts(path@),
        decreases chars.len() - from,
    {
        proof {
            lemma_next_slash(chars@, from as int);
        }
        let end = find_slash(&chars, from);
        let piece = text::from_chars(&chars, from, end);
        let ghost before = list@;
        let ghost found = piece_part(piece@, from == 0);
        if piece.as_str().is_empty() {
            assert(part_views(list@) =~= part_views(before) + found);
        } else if text::same_text(piece.as_str(), ".") {
            if from == 0 {
                list.push(PathPart::Current);
            }
            assert(part_views(list@) =~= part_views(before) + found);
        } else if text::same_text(piece.as_str(), "..") {
            list.push(PathPart::Parent);
            assert(part_views(list@) =~= part_views(before) + found);
        } else {
            list.push(PathPart::Name(piece));
            assert(part_views(list@) =~= part_views(before) + found);
        }
        proof {
            let rest = parts_from(chars@, end + 1);
            assert(parts_from(chars@, from as int) == found + rest);
            assert((part_views(before) + found) + rest =~= part_views(before) + (found + rest));
        }
        if end >= chars.len() {
            assert(parts_from(chars@, end + 1) =~= Seq::<Part>::empty());
            assert(part_views(list@) + Seq::<Part>::empty() =~= part_views(list@));
            return list;
        }
        from = end + 1;
    }
    assert(parts_from(chars@, from as int) =~= Seq::<Part>::empty());
    assert(part_views(list@) + Seq::<Part>::empty() =~= part_views(list@));
    list
}

/// The parts with `.` and `..` resolved.
fn resolve(list: Vec<PathPart>) -> (out: Vec<PathPart>)
    ensures
        part_views(out@) == resolved(part_views(list@)),
{
    let ghost views = part_views(list@);
    let mut out: Vec<PathPart> = Vec::new();
    let mut i: usize = 0;
    assert(part_views(out@) =~= Seq::<Part>::empty());
    while i < list.len()
        invariant
            i <= list.len(),
            views == part_views(list@),
            part_views(out@) == resolved(views.take(i as int)),
        decreases list.len() - i,
    {
        let ghost before = out@;
        proof {
            assert(views.take(i + 1).drop_last() =~= views.take(i as int));
            assert(views.take(i + 1).last() == list@[i as int]@);
        }
        match &list[i] {
            PathPart::Root => {
                out = Vec::new();
                out.push(PathPart::Root);
                assert(part_views(out@) =~= seq![Part::Root]);
            },
            PathPart::Current => {},
            PathPart::Parent => {
                let ends_in_name = out.len() > 0 && match &out[out.len() - 1] {
                    PathPart::Name(_) => true,
                    _ => false,
                };
                if ends_in_name {
                    assert(part_views(before).last() == before.last()@);
                    out.pop();
                    assert(part_views(out@) =~= part_views(before).drop_last());
                } else if out.len() > 0 {
                    assert(part_views(before).last() == before.last()@);
                }
            },
            PathPart::Name(name) => {
                out.push(PathPart::Name(name.clone()));
                assert(part_views(out@) =~= part_views(before).push(Part::Name(name@)));
            },
        }
        i += 1;
    }
    assert(views.take(i as int) =~= views);
    out
}

/// The text of resolved parts.
fn text_of_parts(list: &Vec<PathPart>) -> (path: String)
    ensures
        path@ == path_text(part_views(list@)),
{
    let ghost views = part_views(list@);
    let mut path = String::new();
    let mut i: usize = 0;
    while i < list.len()
        invariant
            i <= list.len(),
            views == part_views(list@),
            path@ == path_text(views.take(i as int)),
        decreases list.len() - i,
    {
        proof {
            let after = views.take(i + 1);
            assert(after.drop_last() =~= views.take(i as int));
            assert(after.last() == list@[i as int]@);
            if i > 0 {
                assert(after[after.len() - 2] == list@[i - 1]@);
            }
        }
        match &list[i] {
            PathPart::Root => {
                path = String::new();
                path.push('/');
                assert(path@ =~= seq!['/']);
            },
            PathPart::Name(name) => {
                let joined = i == 0 || match &list[i - 1] {
                    PathPart::Root => true,
                    _ => false,
                };
                if !joined {
                    let ghost before = path@;
                    path.push('/');
                    assert(path@ =~= before + seq!['/']);
                }
                path.append(name.as_str());
            },
            _ => {},
        }
        i += 1;
    }
    assert(views.take(i as int) =~= views);
    path
}

/// A path with `.` and `..` resolved, without looking at any file.
pub open spec fn normal(path: Seq<char>) -> Seq<char> {
    path_text(resolved(parts(path)))
}

/// A path with `.` and `..` resolved, without looking at any file.
pub fn normalize(path: &str) -> (clean: String)
    ensures
        clean@ == normal(path@),
{
    let list = resolve(path_parts(path));
    text_of_parts(&list)
}

fn same_part(a: &PathPart, b: &PathPart) -> (same: bool)
    ensures
        same == (a@ == b@),
{
    match (a, b) {
        (PathPart::Root, PathPart::Root) => true,
        (PathPart::Current, PathPart::Current) => true,
        (PathPart::Parent, PathPart::Parent) => true,
        (PathPart::Name(x), PathPart::Name(y)) => text::same_text(x.as_str(), y.as_str()),
        _ => false,
    }
}

/// Whether `prefix` stands at the index `from` of `list`.
fn prefix_at(list: &Vec<PathPart>, prefix: &Vec<PathPart>, from: usize) -> (yes: bool)
    requires
        from <= list.len(),
    ensures
        yes == starts(part_views(list@).skip(from as int), part_views(prefix@)),
{
    let ghost rest = part_views(list@).skip(from as int);
    let ghost wanted = part_views(prefix@);
    if prefix.len() > list.len() - from {
        return false;
    }
    let mut i: usize = 0;
    while i < prefix.len()
        invariant
            i <= prefix.len(),
            from + prefix.len() <= list.len(),
            rest == part_views(list@).skip(from as int),
            wanted == part_views(prefix@),
            forall|k: int| 0 <= k < i ==> rest[k] == wanted[k],
        decreases prefix.len() - i,
    {
        assert(rest[i as int] == list@[from + i]@);
        assert(wanted[i as int] == prefix@[i as int]@);
        if !same_part(&list[from + i], &prefix[i]) {
            assert(rest.take(wanted.len() as int)[i as int] != wanted[i as int]);
            return false;
        }
        i += 1;
    }
    assert(rest.take(wanted.len() as int) =~= wanted);
    true
}

// ---------------------------------------------------------------- roots

/// A root granted for writing, and the subpaths subtracted from it. The subpaths are relative to
/// the root, and the paths asked about are resolved already.
#[derive(Debug, Clone, PartialEq, Eq)]
pub struct WritableRoot {
    pub root: String,
    pub read_only_subpaths: Vec<String>,
}

/// The parts of `path` under `root`; nothing where it lies elsewhere.
pub open spec fn relative(path: Seq<Part>, root: Seq<char>) -> Option<Seq<Part>> {
    if starts(path, parts(root)) {
        Some(path.skip(parts(root).len() as int))
    } else {
        None
    }
}

/// The first of the zones that covers what lies under the root.
pub open spec fn covering(under: Seq<Part>, zones: Seq<Seq<char>>) -> Option<Seq<char>>
    decreases zones.len(),
{
    if zones.len() == 0 {
        None
    } else if starts(under, parts(zones[0])) {
        Some(zones[0])
    } else {
        covering(under, zones.drop_first())
    }
}

impl WritableRoot {
    /// The read-only zone of the root that covers a path.
    pub open spec fn zone(self, path: Seq<Part>) -> Option<Seq<char>> {
        match relative(path, self.root@) {
            Some(under) => covering(under, text::texts(self.read_only_subpaths@)),
            None => None,
        }
    }

    pub fn new(root: &str) -> (granted: WritableRoot)
        ensures
            granted.root@ == normal(root@),
            granted.read_only_subpaths@.len() == 0,
    {
        WritableRoot { root: normalize(root), read_only_subpaths: Vec::new() }
    }

    /// Subtracts subpaths, relative to the root.
    pub fn with_read_only_subpaths(self, subpaths: &[&str]) -> (granted: WritableRoot)
        ensures
            granted.root == self.root,
            text::texts(granted.read_only_subpaths@) == subpaths@.map_values(|path: &str| path@),
    {
        let mut zones: Vec<String> = Vec::new();
        let mut i: usize = 0;
        while i < subpaths.len()
            invariant
                i <= subpaths.len(),
                zones.len() == i,
                forall|k: int| 0 <= k < i ==> (#[trigger] zones@[k])@ == subpaths@[k]@,
            decreases subpaths.len() - i,
        {
            zones.push(subpaths[i].to_owned());
            i += 1;
        }
        assert(text::texts(zones@) =~= subpaths@.map_values(|path: &str| path@));
        WritableRoot { root: self.root, read_only_subpaths: zones }
    }

    /// Whether the path lies under the root.
    pub fn contains(&self, path: &str) -> (yes: bool)
        ensures
            yes == starts(parts(path@), parts(self.root@)),
    {
        let list = path_parts(path);
        let root = path_parts(self.root.as_str());
        assert(part_views(list@).skip(0) =~= part_views(list@));
        prefix_at(&list, &root, 0)
    }

    fn zone_of(&self, list: &Vec<PathPart>) -> (zone: Option<&str>)
        ensures
            match zone {
                Some(path) => self.zone(part_views(list@)) == Some(path@),
                None => self.zone(part_views(list@)) is None,
            },
    {
        let root = path_parts(self.root.as_str());
        assert(part_views(list@).skip(0) =~= part_views(list@));
        if !prefix_at(list, &root, 0) {
            return None;
        }
        let ghost under = part_views(list@).skip(parts(self.root@).len() as int);
        let ghost zones = text::texts(self.read_only_subpaths@);
        let mut i: usize = 0;
        assert(zones.skip(0) =~= zones);
        while i < self.read_only_subpaths.len()
            invariant
                i <= self.read_only_subpaths.len(),
                part_views(root@) == parts(self.root@),
                root.len() <= list.len(),
                under == part_views(list@).skip(parts(self.root@).len() as int),
                relative(part_views(list@), self.root@) == Some(under),
                zones == text::texts(self.read_only_subpaths@),
                covering(under, zones) == covering(under, zones.skip(i as int)),
            decreases self.read_only_subpaths.len() - i,
        {
            let zone = path_parts(self.read_only_subpaths[i].as_str());
            proof {
                assert(zones.skip(i as int)[0] == self.read_only_subpaths@[i as int]@);
                assert(zones.skip(i as int).drop_first() =~= zones.skip(i + 1));
            }
            if prefix_at(list, &zone, root.len()) {
                return Some(self.read_only_subpaths[i].as_str());
            }
            i += 1;
        }
        assert(zones.skip(i as int).len() == 0);
        None
    }

    /// The read-only zone that covers the path, so that a refusal can name it.
    pub fn read_only_zone(&self, path: &str) -> (zone: Option<&str>)
        ensures
            match zone {
                Some(found) => self.zone(parts(path@)) == Some(found@),
                None => self.zone(parts(path@)) is None,
            },
    {
        let list = path_parts(path);
        self.zone_of(&list)
    }

    /// Whether the path lies under the root and in no read-only zone of it.
    pub fn is_path_writable(&self, path: &str) -> (yes: bool)
        ensures
            yes == (starts(parts(path@), parts(self.root@)) && self.zone(parts(path@)) is None),
    {
        self.contains(path) && self.read_only_zone(path).is_none()
    }
}

// ---------------------------------------------------------------- policies

/// Why the policy refuses a write.
#[derive(Debug, Clone, PartialEq, Eq)]
pub enum WriteRefusal {
    /// The whole policy forbids writing.
    ReadOnlyPolicy,
    /// A subpath subtracted from a root that is writable otherwise.
    ReadOnlySubpath(String),
}

impl WriteRefusal {
    pub open spec fn text(self) -> Seq<char> {
        match self {
            WriteRefusal::ReadOnlyPolicy => "the `"@ + READ_ONLY_ID@
                + "` sandbox policy forbids every write"@,
            WriteRefusal::ReadOnlySubpath(zone) => "`"@ + zone@
                + "` is a read-only subpath of a writable root"@,
        }
    }

    /// The refusal in words.
    pub fn message(&self) -> (message: String)
        ensures
            message@ == self.text(),
    {
        match self {
            WriteRefusal::ReadOnlyPolicy => {
                let mut message = "the `".to_owned();
                message.append(READ_ONLY_ID);
                message.append("` sandbox policy forbids every write");
                message
            },
            WriteRefusal::ReadOnlySubpath(zone) => {
                let mut message = "`".to_owned();
                message.append(zone.as_str());
                message.append("` is a read-only subpath of a writable root");
                message
            },
        }
    }
}

/// The confinement policy, each variant with its own data.
#[derive(Debug, Clone, PartialEq, Eq)]
pub enum SandboxPolicy {
    /// No confinement.
    DangerFullAccess,
    /// Nothing may be written.
    ReadOnly { network_access: bool },
    /// Writes are confined to the roots, minus their read-only subpaths. The workspace is the
    /// first root and the only one with subtracted subpaths.
    WorkspaceWrite { writable_roots: Vec<WritableRoot>, network_access: bool },
}

/// The zone of the first root that subtracts a path.
pub open spec fn first_zone(roots: Seq<WritableRoot>, path: Seq<Part>) -> Option<Seq<char>>
    decreases roots.len(),
{
    if roots.len() == 0 {
        None
    } else if roots[0].zone(path) is Some {
        roots[0].zone(path)
    } else {
        first_zone(roots.drop_first(), path)
    }
}

impl SandboxPolicy {
    pub open spec fn roots(self) -> Seq<WritableRoot> {
        match self {
            SandboxPolicy::WorkspaceWrite { writable_roots, .. } => writable_roots@,
            _ => Seq::empty(),
        }
    }

    /// The read-only subpath that covers a path.
    pub open spec fn zone_at(self, path: Seq<char>) -> Option<Seq<char>> {
        first_zone(self.roots(), resolved(parts(path)))
    }

    pub open spec fn name(self) -> &'static str {
        match self {
            SandboxPolicy::DangerFullAccess => FULL_ACCESS_ID,
            SandboxPolicy::ReadOnly { .. } => READ_ONLY_ID,
            SandboxPolicy::WorkspaceWrite { .. } => WORKSPACE_WRITE_ID,
        }
    }

    /// The policy of a workspace: its root with the subpaths subtracted, then the extra roots.
    pub open spec fn confines_to(
        self,
        workspace: Seq<char>,
        extra_roots: Seq<Seq<char>>,
        subpaths: Seq<Seq<char>>,
    ) -> bool {
        &&& self is WorkspaceWrite
        &&& self->WorkspaceWrite_network_access
        &&& self.roots().len() == 1 + extra_roots.len()
        &&& self.roots()[0].root@ == normal(workspace)
        &&& text::texts(self.roots()[0].read_only_subpaths@) == subpaths
        &&& forall|i: int|
            0 <= i < extra_roots.len() ==> {
                &&& (#[trigger] self.roots()[i + 1]).root@ == normal(extra_roots[i])
                &&& self.roots()[i + 1].read_only_subpaths@.len() == 0
            }
    }

    /// Writes confined to `workspace` and `extra_roots`, with `subpaths` subtracted from the
    /// workspace alone.
    pub fn workspace_write(workspace: &str, extra_roots: &[&str], subpaths: &[&str]) -> (policy:
        SandboxPolicy)
        ensures
            policy.confines_to(
                workspace@,
                extra_roots@.map_values(|path: &str| path@),
                subpaths@.map_values(|path: &str| path@),
            ),
    {
        let mut writable_roots: Vec<WritableRoot> = Vec::new();
        let first = WritableRoot::new(workspace).with_read_only_subpaths(subpaths);
        writable_roots.push(first);
        let mut i: usize = 0;
        while i < extra_roots.len()
            invariant
                i <= extra_roots.len(),
                writable_roots.len() == 1 + i,
                writable_roots@[0].root@ == normal(workspace@),
                text::texts(writable_roots@[0].read_only_subpaths@) == subpaths@.map_values(
                    |path: &str| path@,
                ),
                forall|k: int|
                    0 <= k < i ==> {
                        &&& (#[trigger] writable_roots@[k + 1]).root@ == normal(extra_roots@[k]@)
                        &&& writable_roots@[k + 1].read_only_subpaths@.len() == 0
                    },
            decreases extra_roots.len() - i,
        {
            writable_roots.push(WritableRoot::new(extra_roots[i]));
            i += 1;
        }
        SandboxPolicy::WorkspaceWrite { writable_roots, network_access: true }
    }

    /// The policy that a configuration value names; `None` for an unknown one.
    pub fn from_id(id: &str, workspace: &str, extra_roots: &[&str], subpaths: &[&str]) -> (policy:
        Option<SandboxPolicy>)
        ensures
            match policy {
                Some(found) => {
                    &&& found.name()@ == text::trim(id@)
                    &&& found is ReadOnly ==> !found->ReadOnly_network_access
                    &&& found is WorkspaceWrite ==> found.confines_to(
                        workspace@,
                        extra_roots@.map_values(|path: &str| path@),
                        subpaths@.map_values(|path: &str| path@),
                    )
                },
                None => text::trim(id@) != FULL_ACCESS_ID@ && text::trim(id@) != READ_ONLY_ID@
                    && text::trim(id@) != WORKSPACE_WRITE_ID@,
            },
    {
        let trimmed = text::trim_of(id);
        if text::same_text(trimmed.as_str(), FULL_ACCESS_ID) {
            Some(SandboxPolicy::DangerFullAccess)
        } else if text::same_text(trimmed.as_str(), READ_ONLY_ID) {
            Some(SandboxPolicy::ReadOnly { network_access: false })
        } else if text::same_text(trimmed.as_str(), WORKSPACE_WRITE_ID) {
            Some(SandboxPolicy::workspace_write(workspace, extra_roots, subpaths))
        } else {
            None
        }
    }

    /// The names that `from_id` takes.
    pub fn ids() -> (names: Vec<&'static str>)
        ensures
            names@ == seq![FULL_ACCESS_ID, READ_ONLY_ID, WORKSPACE_WRITE_ID],
    {
        let names: Vec<&'static str> = vec![FULL_ACCESS_ID, READ_ONLY_ID, WORKSPACE_WRITE_ID];
        assert(names@ =~= seq![FULL_ACCESS_ID, READ_ONLY_ID, WORKSPACE_WRITE_ID]);
        names
    }

    pub fn id(&self) -> (id: &'static str)
        ensures
            id == self.name(),
    {
        match self {
            SandboxPolicy::DangerFullAccess => FULL_ACCESS_ID,
            SandboxPolicy::ReadOnly { .. } => READ_ONLY_ID,
            SandboxPolicy::WorkspaceWrite { .. } => WORKSPACE_WRITE_ID,
        }
    }

    /// Whether the tools may reach the network at all.
    pub fn network_access(&self) -> (yes: bool)
        ensures
            yes == match self {
                SandboxPolicy::DangerFullAccess => true,
                SandboxPolicy::ReadOnly { network_access } => *network_access,
                SandboxPolicy::WorkspaceWrite { network_access, .. } => *network_access,
            },
    {
        match self {
            SandboxPolicy::DangerFullAccess => true,
            SandboxPolicy::ReadOnly { network_access } => *network_access,
            SandboxPolicy::WorkspaceWrite { network_access, .. } => *network_access,
        }
    }

    /// The roots that may be written.
    pub fn writable_roots(&self) -> (granted: &[WritableRoot])
        ensures
            granted@ == self.roots(),
    {
        match self {
            SandboxPolicy::WorkspaceWrite { writable_roots, .. } => writable_roots.as_slice(),
            _ => {
                let none: &[WritableRoot] = &[];
                assert(none@ =~= Seq::<WritableRoot>::empty());
                none
            },
        }
    }

    /// Whether writes are confined at all.
    pub fn confines_writes(&self) -> (yes: bool)
        ensures
            yes == !(self is DangerFullAccess),
    {
        match self {
            SandboxPolicy::DangerFullAccess => false,
            _ => true,
        }
    }

    /// The read-only subpath that covers the path, `.` and `..` resolved first.
    pub fn read_only_zone(&self, path: &str) -> (zone: Option<String>)
        ensures
            text::opt_text(zone) == self.zone_at(path@),
    {
        let list = resolve(path_parts(path));
        let roots = self.writable_roots();
        let ghost wanted = resolved(parts(path@));
        let mut i: usize = 0;
        assert(roots@.skip(0) =~= roots@);
        while i < roots.len()
            invariant
                i <= roots.len(),
                roots@ == self.roots(),
                wanted == resolved(parts(path@)),
                part_views(list@) == wanted,
                first_zone(self.roots(), wanted) == first_zone(roots@.skip(i as int), wanted),
            decreases roots.len() - i,
        {
            proof {
                assert(roots@.skip(i as int)[0] == roots@[i as int]);
                assert(roots@.skip(i as int).drop_first() =~= roots@.skip(i + 1));
            }
            match roots[i].zone_of(&list) {
                Some(zone) => {
                    return Some(zone.to_owned());
                },
                None => {},
            }
            i += 1;
        }
        assert(roots@.skip(i as int).len() == 0);
        None
    }

    /// Why the path may not be written; `None` where it may, or where the policy has no say.
    pub fn write_refusal(&self, path: &str) -> (refusal: Option<WriteRefusal>)
        ensures
            match self {
                SandboxPolicy::DangerFullAccess => refusal is None,
                SandboxPolicy::ReadOnly { .. } => refusal == Some(WriteRefusal::ReadOnlyPolicy),
                SandboxPolicy::WorkspaceWrite { .. } => match (refusal, self.zone_at(path@)) {
                    (Some(WriteRefusal::ReadOnlySubpath(found)), Some(zone)) => found@ == zone,
                    (None, None) => true,
                    _ => false,
                },
            },
    {
        match self {
            SandboxPolicy::DangerFullAccess => None,
            SandboxPolicy::ReadOnly { .. } => Some(WriteRefusal::ReadOnlyPolicy),
            SandboxPolicy::WorkspaceWrite { .. } => match self.read_only_zone(path) {
                Some(zone) => Some(WriteRefusal::ReadOnlySubpath(zone)),
                None => None,
            },
        }
    }
}

// ---------------------------------------------------------------- laws

/// A name that a part of a path can have.
pub open spec fn valid_name(name: Seq<char>) -> bool {
    name.len() > 0 && name != "."@ && name != ".."@ && forall|i: int|
        0 <= i < name.len() ==> #[trigger] name[i] != '/'
}

/// Parts without `.` and `..`, the root at the front or nowhere.
pub open spec fn plain_parts(list: Seq<Part>) -> bool {
    forall|i: int|
        0 <= i < list.len() ==> match #[trigger] list[i] {
            Part::Root => i == 0,
            Part::Name(name) => valid_name(name),
            _ => false,
        }
}

/// Parts whose names are names, the root at the front or nowhere.
pub open spec fn sound_parts(list: Seq<Part>) -> bool {
    forall|i: int|
        0 <= i < list.len() ==> match #[trigger] list[i] {
            Part::Root => i == 0,
            Part::Name(name) => valid_name(name),
            _ => true,
        }
}

proof fn lemma_no_slash_before(s: Seq<char>, from: int)
    requires
        0 <= from <= s.len(),
    ensures
        from <= next_slash(s, from) <= s.len(),
        forall|k: int| from <= k < next_slash(s, from) ==> s[k] != '/',
        next_slash(s, from) < s.len() ==> s[next_slash(s, from)] == '/',
    decreases s.len() - from,
{
    if from < s.len() && s[from] != '/' {
        lemma_no_slash_before(s, from + 1);
    }
}

proof fn lemma_parts_from_sound(s: Seq<char>, from: int)
    requires
        0 <= from,
    ensures
        forall|i: int|
            0 <= i < parts_from(s, from).len() ==> match #[trigger] parts_from(s, from)[i] {
                Part::Root => false,
                Part::Name(name) => valid_name(name),
                _ => true,
            },
    decreases s.len() + 1 - from,
{
    if from < s.len() {
        lemma_no_slash_before(s, from);
        let end = next_slash(s, from);
        lemma_parts_from_sound(s, end + 1);
        let piece = s.subrange(from, end);
        let head = piece_part(piece, from == 0);
        let rest = parts_from(s, end + 1);
        assert forall|i: int| 0 <= i < parts_from(s, from).len() implies match #[trigger] parts_from(
            s,
            from,
        )[i] {
            Part::Root => false,
            Part::Name(name) => valid_name(name),
            _ => true,
        } by {
            if i < head.len() {
                assert(parts_from(s, from)[i] == head[i]);
                assert forall|k: int| 0 <= k < piece.len() implies #[trigger] piece[k] != '/' by {
                    assert(piece[k] == s[from + k]);
                }
            } else {
                assert(parts_from(s, from)[i] == rest[i - head.len()]);
            }
        }
    }
}

proof fn lemma_parts_sound(s: Seq<char>)
    ensures
        sound_parts(parts(s)),
{
    lemma_parts_from_sound(s, 0);
    lemma_parts_from_sound(s, 1);
    if s.len() > 0 && s[0] == '/' {
        let rest = parts_from(s, 1);
        assert forall|i: int| 0 <= i < parts(s).len() implies match #[trigger] parts(s)[i] {
            Part::Root => i == 0,
            Part::Name(name) => valid_name(name),
            _ => true,
        } by {
            if i > 0 {
                assert(parts(s)[i] == rest[i - 1]);
            }
        }
    } else {
        let all = parts_from(s, 0);
        assert forall|i: int| 0 <= i < parts(s).len() implies match #[trigger] parts(s)[i] {
            Part::Root => i == 0,
            Part::Name(name) => valid_name(name),
            _ => true,
        } by {
            assert(parts(s)[i] == all[i]);
        }
    }
}

proof fn lemma_resolved_plain(list: Seq<Part>)
    requires
        sound_parts(list),
    ensures
        plain_parts(resolved(list)),
    decreases list.len(),
{
    if list.len() > 0 {
        let front = list.drop_last();
        assert forall|i: int| 0 <= i < front.len() implies match #[trigger] front[i] {
            Part::Root => i == 0,
            Part::Name(name) => valid_name(name),
            _ => true,
        } by {
            assert(front[i] == list[i]);
        }
        lemma_resolved_plain(front);
        let before = resolved(front);
        let last = list[list.len() - 1];
        let out = resolved(list);
        assert forall|i: int| 0 <= i < out.len() implies match #[trigger] out[i] {
            Part::Root => i == 0,
            Part::Name(name) => valid_name(name),
            _ => false,
        } by {
            if i < before.len() && out.len() >= 1 && !(last is Root) {
                assert(out[i] == before[i]);
            }
        }
    }
}

/// Resolving leaves no `.` and no `..`, so that a climb cannot hide a zone.
pub proof fn law_resolution_leaves_no_climb(path: Seq<char>)
    ensures
        plain_parts(resolved(parts(path))),
{
    lemma_parts_sound(path);
    lemma_resolved_plain(parts(path));
}

proof fn lemma_resolved_keeps_plain(list: Seq<Part>)
    requires
        plain_parts(list),
    ensures
        resolved(list) == list,
    decreases list.len(),
{
    if list.len() > 0 {
        let front = list.drop_last();
        assert forall|i: int| 0 <= i < front.len() implies match #[trigger] front[i] {
            Part::Root => i == 0,
            Part::Name(name) => valid_name(name),
            _ => false,
        } by {
            assert(front[i] == list[i]);
        }
        lemma_resolved_keeps_plain(front);
        let last = list[list.len() - 1];
        assert(list =~= front.push(last));
        if last is Root {
            assert(list.len() == 1);
            assert(list =~= seq![Part::Root]);
        }
    } else {
        assert(resolved(list) =~= list);
    }
}

proof fn lemma_next_slash_end(s: Seq<char>, from: int, end: int)
    requires
        0 <= from <= end <= s.len(),
        forall|k: int| from <= k < end ==> s[k] != '/',
        end < s.len() ==> s[end] == '/',
    ensures
        next_slash(s, from) == end,
    decreases end - from,
{
    if from < end {
        lemma_next_slash_end(s, from + 1, end);
    }
}

proof fn lemma_last_name(s: Seq<char>, from: int, name: Seq<char>)
    requires
        0 <= from <= s.len(),
        s.subrange(from, s.len() as int) == name,
        valid_name(name),
    ensures
        parts_from(s, from) == seq![Part::Name(name)],
{
    assert forall|k: int| from <= k < s.len() implies s[k] != '/' by {
        assert(name[k - from] == s[k]);
    }
    lemma_next_slash_end(s, from, s.len() as int);
    assert(parts_from(s, s.len() as int + 1) =~= Seq::<Part>::empty());
    assert(parts_from(s, from) =~= seq![Part::Name(name)]);
}

proof fn lemma_extend(s: Seq<char>, name: Seq<char>, from: int)
    requires
        0 <= from <= s.len(),
        s.len() > 0,
        valid_name(name),
    ensures
        parts_from(s + seq!['/'] + name, from) == parts_from(s, from).push(Part::Name(name)),
    decreases s.len() - from,
{
    let t = s + seq!['/'] + name;
    assert(t.subrange(s.len() as int + 1, t.len() as int) =~= name);
    lemma_last_name(t, s.len() as int + 1, name);
    if from == s.len() {
        lemma_next_slash_end(t, from, from);
        assert(t.subrange(from, from) =~= Seq::<char>::empty());
        assert(parts_from(s, from) =~= Seq::<Part>::empty());
        assert(parts_from(t, from) =~= parts_from(s, from).push(Part::Name(name)));
    } else {
        lemma_no_slash_before(s, from);
        let end = next_slash(s, from);
        assert forall|k: int| from <= k < end implies t[k] != '/' by {
            assert(t[k] == s[k]);
        }
        assert(t[end] == '/') by {
            if end < s.len() {
                assert(t[end] == s[end]);
            }
        }
        lemma_next_slash_end(t, from, end);
        assert(t.subrange(from, end) =~= s.subrange(from, end));
        if end < s.len() {
            lemma_extend(s, name, end + 1);
        } else {
            assert(parts_from(s, end + 1) =~= Seq::<Part>::empty());
        }
        assert(parts_from(t, from) =~= parts_from(s, from).push(Part::Name(name)));
    }
}

proof fn lemma_text_reads_back(list: Seq<Part>)
    requires
        plain_parts(list),
    ensures
        parts(path_text(list)) == list,
        list.len() > 0 ==> path_text(list).len() > 0,
        list.len() > 0 && list[0] is Root ==> path_text(list)[0] == '/',
        list.len() > 0 && !(list[0] is Root) ==> path_text(list)[0] != '/',
    decreases list.len(),
{
    if list.len() == 0 {
        assert(parts(path_text(list)) =~= list);
    } else {
        let front = list.drop_last();
        assert forall|i: int| 0 <= i < front.len() implies match #[trigger] front[i] {
            Part::Root => i == 0,
            Part::Name(name) => valid_name(name),
            _ => false,
        } by {
            assert(front[i] == list[i]);
        }
        lemma_text_reads_back(front);
        let last = list[list.len() - 1];
        let text = path_text(list);
        let before = path_text(front);
        match last {
            Part::Root => {
                assert(list =~= seq![Part::Root]);
                assert(text == seq!['/']);
                assert(parts_from(text, 1) =~= Seq::<Part>::empty());
                assert(parts(text) =~= list);
            },
            Part::Name(name) => {
                assert(list =~= front.push(last));
                if list.len() == 1 {
                    assert(text =~= name);
                    assert(text.subrange(0, text.len() as int) =~= name);
                    lemma_last_name(text, 0, name);
                    assert(parts(text) =~= list);
                } else if list[list.len() - 2] is Root {
                    assert(front =~= seq![Part::Root]);
                    assert(before == seq!['/']);
                    assert(text == before + name);
                    assert(text.subrange(1, text.len() as int) =~= name);
                    lemma_last_name(text, 1, name);
                    assert(parts(text) =~= list);
                } else {
                    assert(text == before + seq!['/'] + name);
                    assert(text[0] == before[0]);
                    assert(front[0] == list[0]);
                    if front[0] is Root {
                        lemma_extend(before, name, 1);
                        assert(parts(text) =~= parts(before).push(last));
                    } else {
                        lemma_extend(before, name, 0);
                    }
                    assert(parts(text) =~= list);
                }
            },
            _ => {},
        }
    }
}

/// A resolved path reads back as the parts it was written from.
pub proof fn law_normal_path_reads_back(path: Seq<char>)
    ensures
        parts(normal(path)) == resolved(parts(path)),
{
    law_resolution_leaves_no_climb(path);
    lemma_text_reads_back(resolved(parts(path)));
}

/// Resolving a path a second time changes nothing.
pub proof fn law_normalization_is_idempotent(path: Seq<char>)
    ensures
        normal(normal(path)) == normal(path),
{
    law_normal_path_reads_back(path);
    law_resolution_leaves_no_climb(path);
    lemma_resolved_keeps_plain(resolved(parts(path)));
}

/// The three policies have three names, none of which has white space around it: a policy is read
/// back from the name it is written as.
pub proof fn law_policy_names_are_distinct(a: SandboxPolicy, b: SandboxPolicy)
    ensures
        a.name()@ == b.name()@ ==> (a is DangerFullAccess <==> b is DangerFullAccess) && (a is ReadOnly
            <==> b is ReadOnly),
        text::trim(a.name()@) == a.name()@,
{
    reveal_strlit("full-access");
    reveal_strlit("read-only");
    reveal_strlit("workspace-write");
    assert(FULL_ACCESS_ID@.len() == 11 && READ_ONLY_ID@.len() == 9 && WORKSPACE_WRITE_ID@.len()
        == 15);
    let name = a.name()@;
    assert(!text::is_space(name[0]) && !text::is_space(name.last()));
}

/// A path in a read-only zone of a root is never writable under that root, however it is spelled.
pub proof fn law_zones_are_not_writable(policy: SandboxPolicy, path: Seq<char>, at: int)
    requires
        0 <= at < policy.roots().len(),
        policy.roots()[at].zone(resolved(parts(path))) is Some,
    ensures
        policy.zone_at(path) is Some,
{
    lemma_zone_found(policy.roots(), resolved(parts(path)), at);
}

/// Paths that are the same once `.` and `..` are resolved lie in the same read-only zone. Only a
/// policy that grants roots has any.
pub proof fn law_zones_follow_the_resolved_path(
    policy: SandboxPolicy,
    path: Seq<char>,
    other: Seq<char>,
)
    requires
        resolved(parts(path)) == resolved(parts(other)),
    ensures
        policy.zone_at(path) == policy.zone_at(other),
        !(policy is WorkspaceWrite) ==> policy.zone_at(path) is None,
{
}

/// A detour into a directory and out again, or a dot, leads nowhere else: no climb hides a zone.
pub proof fn law_detours_change_nothing(before: Seq<Part>, name: Seq<char>, after: Seq<Part>)
    ensures
        resolved(before + seq![Part::Name(name), Part::Parent] + after) == resolved(before + after),
        resolved(before + seq![Part::Current] + after) == resolved(before + after),
    decreases after.len(),
{
    let detour = before + seq![Part::Name(name), Part::Parent];
    let dot = before + seq![Part::Current];
    if after.len() == 0 {
        assert(before + after =~= before);
        assert(detour + after =~= detour);
        assert(detour.drop_last() =~= before.push(Part::Name(name)));
        assert(before.push(Part::Name(name)).drop_last() =~= before);
        let inside = resolved(before).push(Part::Name(name));
        assert(resolved(detour.drop_last()) == inside);
        assert(inside.drop_last() =~= resolved(before));
        assert(dot + after =~= dot);
        assert(dot.drop_last() =~= before);
    } else {
        law_detours_change_nothing(before, name, after.drop_last());
        assert((detour + after).drop_last() =~= detour + after.drop_last());
        assert((dot + after).drop_last() =~= dot + after.drop_last());
        assert((before + after).drop_last() =~= before + after.drop_last());
    }
}

proof fn lemma_zone_found(roots: Seq<WritableRoot>, path: Seq<Part>, at: int)
    requires
        0 <= at < roots.len(),
        roots[at].zone(path) is Some,
    ensures
        first_zone(roots, path) is Some,
    decreases at,
{
    if at > 0 {
        assert(roots.drop_first()[at - 1] == roots[at]);
        lemma_zone_found(roots.drop_first(), path, at - 1);
    }
}

/// A step into a directory goes there, a step out of it goes back, and the root has nothing above
/// it; a path that starts at the root does not care what came before.
pub proof fn law_paths_are_walked(list: Seq<Part>, name: Seq<char>)
    ensures
        resolved(list.push(Part::Name(name))) == resolved(list).push(Part::Name(name)),
        resolved(list.push(Part::Name(name)).push(Part::Parent)) == resolved(list),
        resolved(list.push(Part::Current)) == resolved(list),
        resolved(list.push(Part::Root)) == seq![Part::Root],
        resolved(list.push(Part::Root).push(Part::Parent)) == seq![Part::Root],
        resolved(Seq::<Part>::empty()) == Seq::<Part>::empty(),
{
    let down = list.push(Part::Name(name));
    let root = list.push(Part::Root);
    assert(down.drop_last() =~= list);
    assert(down.push(Part::Parent).drop_last() =~= down);
    assert(list.push(Part::Current).drop_last() =~= list);
    assert(root.drop_last() =~= list);
    assert(root.push(Part::Parent).drop_last() =~= root);
    assert(resolved(list).push(Part::Name(name)).drop_last() =~= resolved(list));
}

proof fn lemma_covering(under: Seq<Part>, zones: Seq<Seq<char>>)
    ensures
        covering(under, zones) is Some <==> exists|i: int|
            0 <= i < zones.len() && parts(#[trigger] zones[i]).is_prefix_of(under),
        covering(under, zones) matches Some(zone) ==> zones.contains(zone),
    decreases zones.len(),
{
    if zones.len() > 0 {
        let rest = zones.drop_first();
        lemma_covering(under, rest);
        let first = parts(zones[0]);
        if first.is_prefix_of(under) {
            assert(under.take(first.len() as int) =~= first);
        }
        if starts(under, first) {
            assert(first.is_prefix_of(under)) by {
                assert(under.take(first.len() as int) == first);
            }
        }
        if exists|i: int| 0 <= i < rest.len() && parts(#[trigger] rest[i]).is_prefix_of(under) {
            let i = choose|i: int|
                0 <= i < rest.len() && parts(#[trigger] rest[i]).is_prefix_of(under);
            assert(rest[i] == zones[i + 1]);
        }
        if exists|i: int| 0 <= i < zones.len() && parts(#[trigger] zones[i]).is_prefix_of(under) {
            let i = choose|i: int|
                0 <= i < zones.len() && parts(#[trigger] zones[i]).is_prefix_of(under);
            if i > 0 {
                assert(rest[i - 1] == zones[i]);
            }
        }
        match covering(under, rest) {
            Some(zone) => {
                if rest.contains(zone) {
                    let k = choose|k: int| 0 <= k < rest.len() && rest[k] == zone;
                    assert(zones[k + 1] == zone);
                }
            },
            None => {},
        }
        assert(zones.contains(zones[0]));
    }
}

/// A root is read-only exactly below its zones: a path lies in one if and only if it leads to the
/// root and from there to the zone, whatever follows.
pub proof fn law_zones_cover_what_is_below(root: WritableRoot, path: Seq<Part>)
    ensures
        ({
            let top = parts(root.root@);
            root.zone(path) is Some <==> top.is_prefix_of(path) && exists|i: int|
                0 <= i < root.read_only_subpaths@.len() && parts(
                    (#[trigger] root.read_only_subpaths@[i])@,
                ).is_prefix_of(path.skip(top.len() as int))
        }),
{
    let top = parts(root.root@);
    let zones = text::texts(root.read_only_subpaths@);
    let under = path.skip(top.len() as int);
    lemma_covering(under, zones);
    if top.is_prefix_of(path) {
        assert(path.take(top.len() as int) =~= top);
    }
    if starts(path, top) {
        assert(top.is_prefix_of(path)) by {
            assert(path.take(top.len() as int) == top);
        }
    }
    if exists|i: int| 0 <= i < zones.len() && parts(#[trigger] zones[i]).is_prefix_of(under) {
        let i = choose|i: int| 0 <= i < zones.len() && parts(#[trigger] zones[i]).is_prefix_of(under);
        assert(zones[i] == root.read_only_subpaths@[i]@);
    }
    if exists|i: int|
        0 <= i < root.read_only_subpaths@.len() && parts(
            (#[trigger] root.read_only_subpaths@[i])@,
        ).is_prefix_of(under) {
        let i = choose|i: int|
            0 <= i < root.read_only_subpaths@.len() && parts(
                (#[trigger] root.read_only_subpaths@[i])@,
            ).is_prefix_of(under);
        assert(zones[i] == root.read_only_subpaths@[i]@);
    }
}

/// A path is free of zones exactly where no root of the policy has one for it.
pub proof fn law_free_paths_have_no_zone(policy: SandboxPolicy, path: Seq<char>)
    ensures
        policy.zone_at(path) is None <==> forall|i: int|
            0 <= i < policy.roots().len() ==> (#[trigger] policy.roots()[i]).zone(
                resolved(parts(path)),
            ) is None,
{
    let list = resolved(parts(path));
    lemma_first_zone(policy.roots(), list);
}

proof fn lemma_first_zone(roots: Seq<WritableRoot>, path: Seq<Part>)
    ensures
        first_zone(roots, path) is None <==> forall|i: int|
            0 <= i < roots.len() ==> (#[trigger] roots[i]).zone(path) is None,
    decreases roots.len(),
{
    if roots.len() > 0 {
        let rest = roots.drop_first();
        lemma_first_zone(rest, path);
        if forall|i: int| 0 <= i < roots.len() ==> (#[trigger] roots[i]).zone(path) is None {
            assert forall|i: int| 0 <= i < rest.len() implies (#[trigger] rest[i]).zone(path)
                is None by {
                assert(rest[i] == roots[i + 1]);
            }
            assert(roots[0].zone(path) is None);
        }
        if first_zone(roots, path) is None {
            assert forall|i: int| 0 <= i < roots.len() implies (#[trigger] roots[i]).zone(path)
                is None by {
                if i > 0 {
                    assert(rest[i - 1] == roots[i]);
                }
            }
        }
    }
}

/// A workspace policy lets the network be used and grants the workspace first, with its subpaths
/// subtracted, then each of the extra roots, whole.
pub proof fn law_workspaces_are_confined(
    policy: SandboxPolicy,
    workspace: Seq<char>,
    extra_roots: Seq<Seq<char>>,
    subpaths: Seq<Seq<char>>,
    i: int,
)
    requires
        policy.confines_to(workspace, extra_roots, subpaths),
    ensures
        policy is WorkspaceWrite && policy->WorkspaceWrite_network_access,
        policy.roots().len() == extra_roots.len() + 1,
        parts(policy.roots()[0].root@) == resolved(parts(workspace)),
        policy.roots()[0].read_only_subpaths@.len() == subpaths.len(),
        0 <= i < subpaths.len() ==> policy.roots()[0].read_only_subpaths@[i]@ == subpaths[i],
        0 <= i < extra_roots.len() ==> parts(policy.roots()[i + 1].root@) == resolved(
            parts(extra_roots[i]),
        ) && policy.roots()[i + 1].read_only_subpaths@.len() == 0,
{
    law_normal_path_reads_back(workspace);
    let listed = text::texts(policy.roots()[0].read_only_subpaths@);
    assert(listed.len() == policy.roots()[0].read_only_subpaths@.len());
    if 0 <= i < subpaths.len() {
        assert(listed[i] == policy.roots()[0].read_only_subpaths@[i]@);
    }
    if 0 <= i < extra_roots.len() {
        law_normal_path_reads_back(extra_roots[i]);
    }
}

} // verus!
