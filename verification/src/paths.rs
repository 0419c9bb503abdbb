//! Lexical filesystem paths.
//!
//! A path is the sequence of its components, which is also how paths compare:
//! `a//b/./c` and `a/b/c` are the same path. Nothing here touches the disk.
use vstd::prelude::*;

use crate::text::{compare_text, lemma_text_less_irreflexive, lemma_text_less_total,
    lemma_text_less_transitive, same_text, text_less, chars_of, string_of, Order};
use vstd::string::StringExecFns;

verus! {

/// One component of a path, as a mathematical value.
pub enum Part {
    /// A drive or share prefix (`C:`); never produced from Unix text.
    Prefix(Seq<char>),
    Root,
    Current,
    Parent,
    Normal(Seq<char>),
}

/// One component of a path.
#[derive(Debug, PartialEq, Eq)]
pub enum Component {
    Prefix(String),
    RootDir,
    CurDir,
    ParentDir,
    Normal(String),
}

impl View for Component {
    type V = Part;

    open spec fn view(&self) -> Part {
        match self {
            Component::Prefix(text) => Part::Prefix(text@),
            Component::RootDir => Part::Root,
            Component::CurDir => Part::Current,
            Component::ParentDir => Part::Parent,
            Component::Normal(text) => Part::Normal(text@),
        }
    }
}

impl Clone for Component {
    fn clone(&self) -> (r: Component)
        ensures
            r@ == self@,
    {
        match self {
            Component::Prefix(text) => Component::Prefix(text.clone()),
            Component::RootDir => Component::RootDir,
            Component::CurDir => Component::CurDir,
            Component::ParentDir => Component::ParentDir,
            Component::Normal(text) => Component::Normal(text.clone()),
        }
    }
}

/// Rank of a component's kind in the path order.
pub open spec fn part_rank(p: Part) -> int {
    match p {
        Part::Prefix(_) => 0,
        Part::Root => 1,
        Part::Current => 2,
        Part::Parent => 3,
        Part::Normal(_) => 4,
    }
}

pub open spec fn part_text(p: Part) -> Seq<char> {
    match p {
        Part::Prefix(text) => text,
        Part::Normal(text) => text,
        _ => Seq::empty(),
    }
}

/// Order of components: by kind, then by code points.
pub open spec fn part_less(a: Part, b: Part) -> bool {
    part_rank(a) < part_rank(b) || (part_rank(a) == part_rank(b) && text_less(
        part_text(a),
        part_text(b),
    ))
}

pub proof fn lemma_part_equal(a: Part, b: Part)
    ensures
        a == b <==> part_rank(a) == part_rank(b) && part_text(a) == part_text(b),
{
}

impl Component {
    fn rank(&self) -> (r: u8)
        ensures
            r as int == part_rank(self@),
    {
        match self {
            Component::Prefix(_) => 0,
            Component::RootDir => 1,
            Component::CurDir => 2,
            Component::ParentDir => 3,
            Component::Normal(_) => 4,
        }
    }

    /// Whether both are the same component.
    pub fn same(&self, other: &Component) -> (r: bool)
        ensures
            r == (self@ == other@),
    {
        match (self, other) {
            (Component::Prefix(a), Component::Prefix(b)) => *a == *b,
            (Component::RootDir, Component::RootDir) => true,
            (Component::CurDir, Component::CurDir) => true,
            (Component::ParentDir, Component::ParentDir) => true,
            (Component::Normal(a), Component::Normal(b)) => *a == *b,
            _ => false,
        }
    }

    fn order(&self, other: &Component) -> (r: Order)
        ensures
            r == (if self@ == other@ {
                Order::Equal
            } else if part_less(self@, other@) {
                Order::Less
            } else {
                Order::Greater
            }),
    {
        proof {
            lemma_part_equal(self@, other@);
        }
        let a: u8 = self.rank();
        let b: u8 = other.rank();
        if a < b {
            return Order::Less;
        }
        if b < a {
            return Order::Greater;
        }
        match (self, other) {
            (Component::Prefix(x), Component::Prefix(y)) => compare_text(x.as_str(), y.as_str()),
            (Component::Normal(x), Component::Normal(y)) => compare_text(x.as_str(), y.as_str()),
            _ => Order::Equal,
        }
    }
}

/// Path order: component by component, a proper prefix first.
pub open spec fn path_less(a: Seq<Part>, b: Seq<Part>) -> bool
    decreases a.len(),
{
    if b.len() == 0 {
        false
    } else if a.len() == 0 {
        true
    } else if a[0] != b[0] {
        part_less(a[0], b[0])
    } else {
        path_less(a.drop_first(), b.drop_first())
    }
}

pub proof fn lemma_path_less_irreflexive(a: Seq<Part>)
    ensures
        !path_less(a, a),
    decreases a.len(),
{
    if a.len() > 0 {
        lemma_path_less_irreflexive(a.drop_first());
    }
}

proof fn lemma_part_less_transitive(a: Part, b: Part, c: Part)
    requires
        part_less(a, b),
        part_less(b, c),
    ensures
        part_less(a, c),
        a != c,
{
    lemma_part_equal(a, c);
    if part_rank(a) == part_rank(b) && part_rank(b) == part_rank(c) {
        lemma_text_less_transitive(part_text(a), part_text(b), part_text(c));
        lemma_text_less_irreflexive(part_text(a));
    }
}

pub proof fn lemma_path_less_transitive(a: Seq<Part>, b: Seq<Part>, c: Seq<Part>)
    requires
        path_less(a, b),
        path_less(b, c),
    ensures
        path_less(a, c),
    decreases a.len(),
{
    if a.len() > 0 {
        if a[0] == b[0] && b[0] == c[0] {
            lemma_path_less_transitive(a.drop_first(), b.drop_first(), c.drop_first());
        } else if a[0] != b[0] && b[0] != c[0] {
            lemma_part_less_transitive(a[0], b[0], c[0]);
        }
    }
}

pub proof fn lemma_path_less_total(a: Seq<Part>, b: Seq<Part>)
    ensures
        path_less(a, b) || a == b || path_less(b, a),
    decreases a.len(),
{
    if a.len() > 0 && b.len() > 0 {
        if a[0] == b[0] {
            lemma_path_less_total(a.drop_first(), b.drop_first());
            if a.drop_first() == b.drop_first() {
                assert(a =~= seq![a[0]] + a.drop_first());
                assert(b =~= seq![b[0]] + b.drop_first());
            }
        } else {
            lemma_part_equal(a[0], b[0]);
            lemma_text_less_total(part_text(a[0]), part_text(b[0]));
        }
    } else if a.len() == 0 && b.len() == 0 {
        assert(a =~= b);
    }
}

/// Whether `path` equals `base` or lies below it.
pub open spec fn within(path: Seq<Part>, base: Seq<Part>) -> bool {
    base.len() <= path.len() && path.take(base.len() as int) == base
}

/// Whether a component can be taken off the end of a path.
pub open spec fn is_removable(part: Part) -> bool {
    part is Normal || part is Current || part is Parent
}

/// Whether the path's last component can be taken off.
pub open spec fn has_parent(path: Seq<Part>) -> bool {
    path.len() > 0 && is_removable(path.last())
}

/// Whether taking components off `path` one by one leads to `ancestor`; a
/// path is its own ancestor.
pub open spec fn is_ancestor(ancestor: Seq<Part>, path: Seq<Part>) -> bool {
    within(path, ancestor) && forall|i: int|
        ancestor.len() <= i < path.len() ==> is_removable(#[trigger] path[i])
}

/// Whether the path starts at a filesystem root.
pub open spec fn is_absolute_path(path: Seq<Part>) -> bool {
    (path.len() > 0 && path[0] is Root) || (path.len() > 1 && path[0] is Prefix && path[1] is Root)
}

/// Name of the last component when it is an ordinary one.
pub open spec fn file_name_of(path: Seq<Part>) -> Option<Seq<char>> {
    if path.len() > 0 {
        match path.last() {
            Part::Normal(text) => Some(text),
            _ => None,
        }
    } else {
        None
    }
}

/// Index of the last `.` in `name`, if any.
pub open spec fn last_dot(name: Seq<char>) -> Option<int>
    decreases name.len(),
{
    if name.len() == 0 {
        None
    } else if name.last() == '.' {
        Some(name.len() - 1)
    } else {
        last_dot(name.drop_last())
    }
}

/// Extension of a file name: what follows its last dot, unless that dot
/// opens the name.
pub open spec fn extension_of(name: Seq<char>) -> Option<Seq<char>> {
    match last_dot(name) {
        Some(i) => if i > 0 {
            Some(name.skip(i + 1))
        } else {
            None
        },
        None => None,
    }
}

pub proof fn lemma_last_dot(name: Seq<char>)
    ensures
        match last_dot(name) {
            Some(i) => 0 <= i < name.len() && name[i] == '.' && forall|j: int|
                i < j < name.len() ==> name[j] != '.',
            None => forall|j: int| 0 <= j < name.len() ==> name[j] != '.',
        },
    decreases name.len(),
{
    if name.len() > 0 && name.last() != '.' {
        lemma_last_dot(name.drop_last());
        match last_dot(name.drop_last()) {
            Some(i) => {
                assert(name[i] == name.drop_last()[i]);
                assert forall|j: int| i < j < name.len() implies name[j] != '.' by {
                    if j < name.len() - 1 {
                        assert(name[j] == name.drop_last()[j]);
                    }
                }
            },
            None => {
                assert forall|j: int| 0 <= j < name.len() implies name[j] != '.' by {
                    if j < name.len() - 1 {
                        assert(name[j] == name.drop_last()[j]);
                    }
                }
            },
        }
    }
}

pub proof fn lemma_last_dot_unique(name: Seq<char>, i: int)
    requires
        0 <= i < name.len(),
        name[i] == '.',
        forall|j: int| i < j < name.len() ==> name[j] != '.',
    ensures
        last_dot(name) == Some(i),
{
    lemma_last_dot(name);
}

/// Index of the last dot of `name`.
pub fn find_last_dot(name: &Vec<char>) -> (r: Option<usize>)
    ensures
        match r {
            Some(i) => last_dot(name@) == Some(i as int) && i < name.len(),
            None => last_dot(name@) is None,
        },
{
    let mut i: usize = name.len();
    while i > 0
        invariant
            0 <= i <= name.len(),
            forall|j: int| i <= j < name.len() ==> name@[j] != '.',
        decreases i,
    {
        i = i - 1;
        if name[i] == '.' {
            proof {
                lemma_last_dot_unique(name@, i as int);
            }
            return Some(i);
        }
    }
    proof {
        lemma_last_dot(name@);
    }
    None
}

// ---------------------------------------------------------------------------
// Parsing
// ---------------------------------------------------------------------------

/// Which text separates components.
#[derive(Clone, Copy, Debug, PartialEq, Eq, Structural)]
pub enum PathStyle {
    Unix,
    Windows,
}

pub open spec fn is_separator(style: PathStyle, c: char) -> bool {
    c == '/' || (style == PathStyle::Windows && c == '\\')
}

fn separator(style: PathStyle, c: char) -> (r: bool)
    ensures
        r == is_separator(style, c),
{
    c == '/' || (matches!(style, PathStyle::Windows) && c == '\\')
}

/// The component a segment between separators stands for, if any.
pub open spec fn segment_part(segment: Seq<char>) -> Option<Part> {
    if segment == Seq::<char>::empty() || segment == seq!['.'] {
        None
    } else if segment == seq!['.', '.'] {
        Some(Part::Parent)
    } else {
        Some(Part::Normal(segment))
    }
}

pub open spec fn push_segment(parts: Seq<Part>, segment: Seq<char>) -> Seq<Part> {
    match segment_part(segment) {
        Some(part) => parts.push(part),
        None => parts,
    }
}

/// Components closed so far and the open segment after reading `s`.
pub open spec fn walk_segments(style: PathStyle, s: Seq<char>) -> (Seq<Part>, Seq<char>)
    decreases s.len(),
{
    if s.len() == 0 {
        (Seq::empty(), Seq::empty())
    } else {
        let (parts, open) = walk_segments(style, s.drop_last());
        if is_separator(style, s.last()) {
            (push_segment(parts, open), Seq::empty())
        } else {
            (parts, open.push(s.last()))
        }
    }
}

/// Components named by a text that holds neither prefix nor leading dot.
pub open spec fn body_parts(style: PathStyle, s: Seq<char>) -> Seq<Part> {
    let (parts, open) = walk_segments(style, s);
    push_segment(parts, open)
}

/// Length of a drive prefix (`C:`) at the front of a Windows text.
pub open spec fn prefix_len(style: PathStyle, s: Seq<char>) -> int {
    if style == PathStyle::Windows && s.len() >= 2 && s[1] == ':' && ('a' <= s[0] <= 'z' || 'A'
        <= s[0] <= 'Z') {
        2
    } else {
        0
    }
}

/// What stands before the ordinary components: the prefix, then the root
/// or, in a relative text, a leading `.`.
pub open spec fn lead_parts(style: PathStyle, s: Seq<char>) -> Seq<Part> {
    let p = prefix_len(style, s);
    let front = if p > 0 {
        seq![Part::Prefix(s.take(p))]
    } else {
        Seq::<Part>::empty()
    };
    let rest = s.skip(p);
    if rest.len() > 0 && is_separator(style, rest[0]) {
        front.push(Part::Root)
    } else if p == 0 && rest.len() > 0 && rest[0] == '.' && (rest.len() == 1 || is_separator(
        style,
        rest[1],
    )) {
        front.push(Part::Current)
    } else {
        front
    }
}

/// Components of a path text.
pub open spec fn path_parts(style: PathStyle, s: Seq<char>) -> Seq<Part> {
    lead_parts(style, s) + body_parts(style, s.skip(prefix_len(style, s)))
}

/// A path as the sequence of its components.
#[derive(Debug, PartialEq, Eq)]
pub struct FsPath {
    components: Vec<Component>,
}

pub open spec fn component_views(components: Seq<Component>) -> Seq<Part> {
    components.map_values(|c: Component| c@)
}

impl View for FsPath {
    type V = Seq<Part>;

    closed spec fn view(&self) -> Seq<Part> {
        component_views(self.components@)
    }
}

impl Clone for FsPath {
    fn clone(&self) -> (r: FsPath)
        ensures
            r@ == self@,
    {
        self.prefix(self.components.len())
    }
}

fn push_segment_exec(components: &mut Vec<Component>, segment: &String)
    ensures
        component_views(final(components)@) == push_segment(
            component_views(old(components)@),
            segment@,
        ),
{
    proof {
        reveal_strlit("");
        reveal_strlit(".");
        reveal_strlit("..");
        assert(""@ =~= Seq::<char>::empty());
        assert("."@ =~= seq!['.']);
        assert(".."@ =~= seq!['.', '.']);
    }
    if same_text(segment.as_str(), "") || same_text(segment.as_str(), ".") {
        return;
    }
    if same_text(segment.as_str(), "..") {
        components.push(Component::ParentDir);
    } else {
        components.push(Component::Normal(segment.clone()));
    }
    assert(component_views(components@) =~= push_segment(
        component_views(old(components)@),
        segment@,
    ));
}

impl FsPath {
    /// The empty path.
    pub fn empty() -> (r: FsPath)
        ensures
            r@ == Seq::<Part>::empty(),
    {
        let r = FsPath { components: Vec::new() };
        assert(r@ =~= Seq::<Part>::empty());
        r
    }

    /// Reads a Unix path text.
    pub fn new(text: &str) -> (r: FsPath)
        ensures
            r@ == path_parts(PathStyle::Unix, text@),
    {
        FsPath::parse(PathStyle::Unix, text)
    }

    /// Reads a path text.
    pub fn parse(style: PathStyle, text: &str) -> (r: FsPath)
        ensures
            r@ == path_parts(style, text@),
    {
        let chars = chars_of(text);
        let n: usize = chars.len();
        let mut components: Vec<Component> = Vec::new();
        let mut start: usize = 0;
        if matches!(style, PathStyle::Windows) && n >= 2 && chars[1] == ':' && (('a' <= chars[0]
            && chars[0] <= 'z') || ('A' <= chars[0] && chars[0] <= 'Z')) {
            components.push(Component::Prefix(string_of(&chars, 0, 2)));
            start = 2;
        }
        assert(start as int == prefix_len(style, text@));
        let ghost rest = text@.skip(start as int);
        assert(component_views(components@) =~= if start > 0 {
            seq![Part::Prefix(text@.take(start as int))]
        } else {
            Seq::<Part>::empty()
        }) by {
            if start > 0 {
                assert(text@.subrange(0, 2) =~= text@.take(2));
            }
        }
        let ghost front = component_views(components@);
        if start < n && separator(style, chars[start]) {
            components.push(Component::RootDir);
            assert(component_views(components@) =~= front.push(Part::Root));
        } else if start == 0 && n > 0 && chars[0] == '.' && (n == 1 || separator(style, chars[1])) {
            components.push(Component::CurDir);
            assert(component_views(components@) =~= front.push(Part::Current));
        }
        let ghost lead = component_views(components@);
        assert(lead == lead_parts(style, text@));
        let mut i: usize = start;
        let mut open = String::new();
        assert(rest.take(0) =~= Seq::<char>::empty());
        assert(component_views(components@) =~= lead + walk_segments(style, rest.take(0)).0);
        while i < n
            invariant
                start <= i <= n,
                n == chars.len(),
                chars@ == text@,
                rest == text@.skip(start as int),
                component_views(components@) == lead + walk_segments(
                    style,
                    rest.take(i - start),
                ).0,
                open@ == walk_segments(style, rest.take(i - start)).1,
            decreases n - i,
        {
            let c = chars[i];
            let ghost seen = rest.take(i - start);
            let ghost next = rest.take(i + 1 - start);
            assert(next.drop_last() =~= seen);
            assert(next.last() == c);
            if separator(style, c) {
                let ghost before = component_views(components@);
                push_segment_exec(&mut components, &open);
                open = String::new();
                assert(push_segment(lead + walk_segments(style, seen).0, walk_segments(style, seen).1)
                    =~= lead + push_segment(
                    walk_segments(style, seen).0,
                    walk_segments(style, seen).1,
                ));
            } else {
                open.push(c);
            }
            i = i + 1;
        }
        assert(rest.take(n - start) =~= rest);
        push_segment_exec(&mut components, &open);
        assert(push_segment(lead + walk_segments(style, rest).0, walk_segments(style, rest).1)
            =~= lead + push_segment(walk_segments(style, rest).0, walk_segments(style, rest).1));
        FsPath { components }
    }

    /// Number of components.
    pub fn len(&self) -> (r: usize)
        ensures
            r as nat == self@.len(),
    {
        self.components.len()
    }

    /// Component `i`.
    pub fn component(&self, i: usize) -> (r: &Component)
        requires
            i < self@.len(),
        ensures
            r@ == self@[i as int],
    {
        &self.components[i]
    }

    /// The path made of the first `n` components.
    pub fn prefix(&self, n: usize) -> (r: FsPath)
        requires
            n <= self@.len(),
        ensures
            r@ == self@.take(n as int),
    {
        let mut components: Vec<Component> = Vec::new();
        let mut i: usize = 0;
        while i < n
            invariant
                0 <= i <= n <= self.components.len(),
                component_views(components@) == self@.take(i as int),
            decreases n - i,
        {
            let ghost before = components@;
            let component = self.components[i].clone();
            assert(component@ == self@[i as int]);
            components.push(component);
            assert(component_views(components@) =~= component_views(before).push(component@));
            assert(component_views(components@) =~= self@.take(i as int + 1));
            i = i + 1;
        }
        assert(component_views(components@) =~= self@.take(n as int));
        FsPath { components }
    }

    /// This path with one more component at its end.
    pub fn pushed(&self, component: Component) -> (r: FsPath)
        ensures
            r@ == self@.push(component@),
    {
        let mut r = self.clone();
        r.components.push(component);
        assert(r@ =~= self@.push(component@));
        r
    }

    /// This path with the components of `tail` from `from` on appended.
    fn extended(&self, tail: &FsPath, from: usize) -> (r: FsPath)
        requires
            from <= tail@.len(),
        ensures
            r@ == self@ + tail@.skip(from as int),
    {
        let mut r = self.clone();
        let mut i: usize = from;
        assert(r@ =~= self@ + tail@.subrange(from as int, i as int));
        while i < tail.components.len()
            invariant
                from <= i <= tail.components.len(),
                tail@.len() == tail.components.len(),
                r@ == self@ + tail@.subrange(from as int, i as int),
            decreases tail.components.len() - i,
        {
            let ghost before = r@;
            let component = tail.components[i].clone();
            assert(component@ == tail@[i as int]);
            r.components.push(component);
            assert(r@ =~= before.push(component@));
            assert(r@ =~= self@ + tail@.subrange(from as int, i as int + 1));
            i = i + 1;
        }
        assert(tail@.subrange(from as int, i as int) =~= tail@.skip(from as int));
        r
    }

    /// What follows `base` in this path.
    pub fn strip_prefix(&self, base: &FsPath) -> (r: Option<FsPath>)
        ensures
            match r {
                Some(rest) => within(self@, base@) && rest@ == self@.skip(base@.len() as int),
                None => !within(self@, base@),
            },
    {
        if !self.starts_with(base) {
            return None;
        }
        let rest = FsPath::empty().extended(self, base.len());
        assert(rest@ =~= self@.skip(base@.len() as int));
        Some(rest)
    }

    /// Appends `tail`; an absolute `tail` replaces this path.
    pub fn join_path(&self, tail: &FsPath) -> (r: FsPath)
        ensures
            r@ == joined(self@, tail@),
    {
        if tail.is_absolute() {
            return tail.clone();
        }
        if self.components.len() > 0 && tail.components.len() > 0 && matches!(
            tail.components[0],
            Component::CurDir
        ) {
            return self.extended(tail, 1);
        }
        let r = self.extended(tail, 0);
        assert(tail@.skip(0) =~= tail@);
        r
    }

    /// Appends a Unix path text.
    pub fn join(&self, text: &str) -> (r: FsPath)
        ensures
            r@ == joined(self@, path_parts(PathStyle::Unix, text@)),
    {
        self.join_path(&FsPath::new(text))
    }

    /// Whether the path starts at a filesystem root.
    pub fn is_absolute(&self) -> (r: bool)
        ensures
            r == is_absolute_path(self@),
    {
        let n: usize = self.components.len();
        (n > 0 && matches!(self.components[0], Component::RootDir)) || (n > 1 && matches!(
            self.components[0],
            Component::Prefix(_)
        ) && matches!(self.components[1], Component::RootDir))
    }

    /// Whether both are the same path.
    pub fn same(&self, other: &FsPath) -> (r: bool)
        ensures
            r == (self@ == other@),
    {
        if self.components.len() != other.components.len() {
            return false;
        }
        if self.starts_with(other) {
            assert(self@.take(other@.len() as int) =~= self@);
            true
        } else {
            assert(self@.take(self@.len() as int) =~= self@);
            false
        }
    }

    /// Whether this path equals `base` or lies below it.
    pub fn starts_with(&self, base: &FsPath) -> (r: bool)
        ensures
            r == within(self@, base@),
    {
        if base.components.len() > self.components.len() {
            return false;
        }
        let mut i: usize = base.components.len();
        while i > 0
            invariant
                0 <= i <= base.components.len() <= self.components.len(),
                base@.len() == base.components.len(),
                self@.len() == self.components.len(),
                forall|j: int| i <= j < base@.len() ==> self@[j] == base@[j],
            decreases i,
        {
            i = i - 1;
            if !self.components[i].same(&base.components[i]) {
                assert(self@.take(base@.len() as int)[i as int] == self@[i as int]);
                return false;
            }
        }
        assert(self@.take(base@.len() as int) =~= base@);
        true
    }

    /// Path without its last component, where it can be taken off.
    pub fn parent(&self) -> (r: Option<FsPath>)
        ensures
            match r {
                Some(p) => has_parent(self@) && p@ == self@.drop_last(),
                None => !has_parent(self@),
            },
    {
        let n: usize = self.components.len();
        if n == 0 {
            return None;
        }
        match &self.components[n - 1] {
            Component::Normal(_) | Component::CurDir | Component::ParentDir => {
                let p = self.prefix(n - 1);
                assert(self@.take(n - 1) =~= self@.drop_last());
                Some(p)
            },
            _ => None,
        }
    }

    /// Last component's name when it is an ordinary one.
    pub fn file_name(&self) -> (r: Option<String>)
        ensures
            match r {
                Some(name) => file_name_of(self@) == Some(name@),
                None => file_name_of(self@) is None,
            },
    {
        let n: usize = self.components.len();
        if n == 0 {
            return None;
        }
        match &self.components[n - 1] {
            Component::Normal(name) => Some(name.clone()),
            _ => None,
        }
    }

    /// Extension of the last component's name.
    pub fn extension(&self) -> (r: Option<String>)
        ensures
            match file_name_of(self@) {
                Some(name) => match extension_of(name) {
                    Some(ext) => r is Some && r->0@ == ext,
                    None => r is None,
                },
                None => r is None,
            },
    {
        match self.file_name() {
            None => None,
            Some(name) => {
                let chars = chars_of(name.as_str());
                match find_last_dot(&chars) {
                    Some(i) => if i > 0 {
                        let ext = string_of(&chars, i + 1, chars.len());
                        assert(ext@ =~= name@.skip(i as int + 1));
                        Some(ext)
                    } else {
                        None
                    },
                    None => None,
                }
            },
        }
    }

    /// Position of this path relative to `other` in the path order.
    pub fn order(&self, other: &FsPath) -> (r: Order)
        ensures
            r == (if self@ == other@ {
                Order::Equal
            } else if path_less(self@, other@) {
                Order::Less
            } else {
                Order::Greater
            }),
    {
        let mut i: usize = 0;
        assert(self@.skip(0) =~= self@);
        assert(other@.skip(0) =~= other@);
        while i < self.components.len() && i < other.components.len()
            invariant
                0 <= i <= self.components.len(),
                i <= other.components.len(),
                self@.len() == self.components.len(),
                other@.len() == other.components.len(),
                path_less(self@, other@) == path_less(self@.skip(i as int), other@.skip(i as int)),
                (self@ == other@) == (self@.skip(i as int) == other@.skip(i as int)),
            decreases self.components.len() - i,
        {
            let ghost a = self@.skip(i as int);
            let ghost b = other@.skip(i as int);
            assert(a[0] == self@[i as int] && b[0] == other@[i as int]);
            if !self.components[i].same(&other.components[i]) {
                return self.components[i].order(&other.components[i]);
            }
            proof {
                assert(a.drop_first() =~= self@.skip(i as int + 1));
                assert(b.drop_first() =~= other@.skip(i as int + 1));
                if a.drop_first() == b.drop_first() {
                    assert(a =~= seq![a[0]] + a.drop_first());
                    assert(b =~= seq![b[0]] + b.drop_first());
                }
            }
            i = i + 1;
        }
        if i < other.components.len() {
            assert(self@.skip(i as int).len() == 0);
            assert(other@.skip(i as int).len() > 0);
            Order::Less
        } else if i < self.components.len() {
            assert(self@.skip(i as int).len() > 0);
            assert(other@.skip(i as int).len() == 0);
            Order::Greater
        } else {
            assert(self@.skip(i as int) =~= other@.skip(i as int));
            Order::Equal
        }
    }

    /// The path as text, components separated by `/`.
    pub fn to_text(&self) -> (r: String)
        ensures
            r@ == path_text(self@),
    {
        let mut out = String::new();
        let mut i: usize = 0;
        assert(self@.take(0) =~= Seq::<Part>::empty());
        while i < self.components.len()
            invariant
                0 <= i <= self.components.len(),
                self@.len() == self.components.len(),
                out@ == path_text(self@.take(i as int)),
            decreases self.components.len() - i,
        {
            let ghost seen = self@.take(i as int);
            let ghost next = self@.take(i as int + 1);
            assert(next.drop_last() =~= seen);
            assert(next.last() == self@[i as int]);
            assert(seen.len() > 0 ==> seen.last() == self@[i - 1]);
            if i > 0 {
                match &self.components[i - 1] {
                    Component::RootDir | Component::Prefix(_) => {},
                    _ => out.push('/'),
                }
            }
            match &self.components[i] {
                Component::Prefix(text) => out.append(text.as_str()),
                Component::Normal(text) => out.append(text.as_str()),
                Component::RootDir => out.push('/'),
                Component::CurDir => out.push('.'),
                Component::ParentDir => {
                    out.push('.');
                    out.push('.');
                },
            }
            assert(out@ =~= path_text(next));
            i = i + 1;
        }
        assert(self@.take(i as int) =~= self@);
        out
    }
}

/// Text of one component.
pub open spec fn component_text(p: Part) -> Seq<char> {
    match p {
        Part::Prefix(text) => text,
        Part::Normal(text) => text,
        Part::Root => seq!['/'],
        Part::Current => seq!['.'],
        Part::Parent => seq!['.', '.'],
    }
}

/// Whether a separator stands between this component and the next.
pub open spec fn wants_separator(p: Part) -> bool {
    !(p is Root) && !(p is Prefix)
}

/// The path as text, components separated by `/`.
pub open spec fn path_text(path: Seq<Part>) -> Seq<char>
    decreases path.len(),
{
    if path.len() == 0 {
        Seq::empty()
    } else {
        let front = path.drop_last();
        path_text(front) + (if front.len() > 0 && wants_separator(front.last()) {
            seq!['/']
        } else {
            Seq::empty()
        }) + component_text(path.last())
    }
}

/// `tail` appended to `base`; an absolute `tail` stands alone, and a
/// leading `.` of `tail` vanishes behind something.
pub open spec fn joined(base: Seq<Part>, tail: Seq<Part>) -> Seq<Part> {
    if is_absolute_path(tail) {
        tail
    } else if base.len() > 0 && tail.len() > 0 && tail[0] is Current {
        base + tail.skip(1)
    } else {
        base + tail
    }
}

pub proof fn lemma_within_reflexive(path: Seq<Part>)
    ensures
        within(path, path),
{
    assert(path.take(path.len() as int) =~= path);
}

pub proof fn lemma_within_transitive(a: Seq<Part>, b: Seq<Part>, c: Seq<Part>)
    requires
        within(a, b),
        within(b, c),
    ensures
        within(a, c),
{
    assert(a.take(c.len() as int) =~= a.take(b.len() as int).take(c.len() as int));
}

// ---------------------------------------------------------------------------
// What the paths are for
// ---------------------------------------------------------------------------

proof fn lemma_walk_appended(t: Seq<char>, name: Seq<char>)
    requires
        forall|i: int| 0 <= i < name.len() ==> #[trigger] name[i] != '/',
    ensures
        walk_segments(PathStyle::Unix, t.push('/') + name) == (
            push_segment(
                walk_segments(PathStyle::Unix, t).0,
                walk_segments(PathStyle::Unix, t).1,
            ),
            name,
        ),
    decreases name.len(),
{
    let s = t.push('/') + name;
    if name.len() == 0 {
        assert(s =~= t.push('/'));
        assert(s.drop_last() =~= t);
        assert(name =~= Seq::empty());
    } else {
        let front = name.drop_last();
        assert forall|i: int| 0 <= i < front.len() implies #[trigger] front[i] != '/' by {
            assert(front[i] == name[i]);
        }
        lemma_walk_appended(t, front);
        assert(s.drop_last() =~= t.push('/') + front);
        assert(s.last() == name.last());
        assert(name[name.len() - 1] != '/');
        assert(front.push(name.last()) =~= name);
    }
}

/// A name behind a slash is one more component; a dot there adds nothing, and
/// neither does a slash alone.
pub proof fn law_a_slash_adds_a_component(
    text: &str,
    longer: &str,
    name: Seq<char>,
    r: FsPath,
    l: FsPath,
)
    requires
        call_ensures(FsPath::new, (text,), r),
        call_ensures(FsPath::new, (longer,), l),
        longer@ == text@.push('/') + name,
        text@.len() > 0,
        forall|i: int| 0 <= i < name.len() ==> #[trigger] name[i] != '/',
    ensures
        name.len() == 0 || name == seq!['.'] ==> l@ == r@,
        name == seq!['.', '.'] ==> l@ == r@.push(Part::Parent),
        name.len() > 0 && name != seq!['.'] && name != seq!['.', '.'] ==> l@ == r@.push(
            Part::Normal(name),
        ),
        text@[0] == '/' <==> r@.len() > 0 && r@[0] is Root,
{
    let t = text@;
    let s = longer@;
    lemma_walk_appended(t, name);
    assert(t.skip(0) =~= t);
    assert(s.skip(0) =~= s);
    assert(s[0] == t[0]);
    if t.len() > 1 {
        assert(s[1] == t[1]);
    } else {
        assert(s[1] == '/');
    }
    assert(lead_parts(PathStyle::Unix, s) == lead_parts(PathStyle::Unix, t));
    if name.len() == 0 {
        assert(name =~= Seq::<char>::empty());
    }
    let (parts, open) = walk_segments(PathStyle::Unix, t);
    let body = push_segment(parts, open);
    assert(r@ == lead_parts(PathStyle::Unix, t) + body);
    assert(l@ =~= lead_parts(PathStyle::Unix, t) + push_segment(body, name));
    assert(seq!['.'].len() == 1 && seq!['.', '.'].len() == 2);
    lemma_walk_has_no_root(t);
    if t[0] == '/' {
        assert(r@[0] is Root);
    } else if r@.len() > 0 {
        if lead_parts(PathStyle::Unix, t).len() == 0 {
            assert(r@[0] == body[0]);
        }
    }
}

proof fn lemma_walk_has_no_root(s: Seq<char>)
    ensures
        forall|i: int|
            0 <= i < walk_segments(PathStyle::Unix, s).0.len() ==> !(
            #[trigger] walk_segments(PathStyle::Unix, s).0[i] is Root),
    decreases s.len(),
{
    if s.len() > 0 {
        lemma_walk_has_no_root(s.drop_last());
    }
}

/// A path is written out component by component, a slash between two of them
/// and none behind the root.
pub proof fn law_a_path_is_written_with_slashes(
    path: FsPath,
    longer: FsPath,
    name: Seq<char>,
    r: String,
    l: String,
)
    requires
        call_ensures(FsPath::to_text, (&path,), r),
        call_ensures(FsPath::to_text, (&longer,), l),
        longer@ == path@.push(Part::Normal(name)),
    ensures
        path@.len() == 0 ==> l@ == name,
        path@.len() > 0 && !(path@.last() is Root) && !(path@.last() is Prefix) ==> l@ == r@.push(
            '/',
        ) + name,
        path@.len() > 0 && path@.last() is Root ==> l@ == r@ + name,
        path@ == seq![Part::Root] ==> r@ == seq!['/'],
{
    assert(longer@.drop_last() =~= path@);
    assert(longer@.last() == Part::Normal(name));
    if path@.len() > 0 && path@.last() is Root {
        assert(l@ =~= r@ + name);
    } else if path@.len() > 0 && wants_separator(path@.last()) {
        assert(l@ =~= r@.push('/') + name);
    } else if path@.len() == 0 {
        assert(path_text(path@) =~= Seq::empty());
        assert(l@ =~= name);
    }
    if path@ == seq![Part::Root] {
        reveal_with_fuel(path_text, 2);
        assert(path@.drop_last() =~= Seq::empty());
        assert(r@ =~= seq!['/']);
    }
}

/// A relative path is appended, an absolute one taken as it is.
pub proof fn law_an_absolute_path_is_not_appended(base: FsPath, tail: FsPath, r: FsPath)
    requires
        call_ensures(FsPath::join_path, (&base, &tail), r),
    ensures
        tail@.len() > 0 && tail@[0] is Root ==> r@ == tail@,
        tail@.len() > 0 && (tail@[0] is Normal || tail@[0] is Parent) ==> r@ == base@ + tail@,
        tail@.len() == 0 ==> r@ == base@,
        base@.len() > 0 && tail@.len() > 0 && tail@[0] is Current ==> r@ == base@ + tail@.skip(1),
{
    if tail@.len() == 0 {
        assert(base@ + tail@ =~= base@);
    }
}

/// What is stripped and what is left make up the path, and a path is below
/// exactly those it can be stripped of.
pub proof fn law_a_stripped_path_is_made_whole_again(
    path: FsPath,
    base: FsPath,
    inside: bool,
    r: Option<FsPath>,
)
    requires
        call_ensures(FsPath::strip_prefix, (&path, &base), r),
        call_ensures(FsPath::starts_with, (&path, &base), inside),
    ensures
        r matches Some(rest) ==> path@ == base@ + rest@,
        r is Some <==> inside,
        (exists|rest: Seq<Part>| path@ == #[trigger] (base@ + rest)) ==> inside,
{
    if let Some(rest) = r {
        assert(path@ =~= base@ + rest@);
    }
    if exists|rest: Seq<Part>| path@ == #[trigger] (base@ + rest) {
        let rest = choose|rest: Seq<Part>| path@ == #[trigger] (base@ + rest);
        assert(path@.take(base@.len() as int) =~= base@);
    }
}

/// A path is its parent and its last component; a root has no parent.
pub proof fn law_a_parent_lacks_the_last_component(
    path: FsPath,
    p: Option<FsPath>,
    name: Option<String>,
)
    requires
        call_ensures(FsPath::parent, (&path,), p),
        call_ensures(FsPath::file_name, (&path,), name),
    ensures
        path@.len() == 0 ==> p is None && name is None,
        path@.len() > 0 && path@.last() is Root ==> p is None && name is None,
        p matches Some(parent) ==> path@ == parent@.push(path@.last()),
        path@.len() > 0 ==> (path@.last() matches Part::Normal(text) ==> p is Some && name is Some
            && name->0@ == text),
        name is Some ==> p is Some,
{
    if let Some(parent) = p {
        assert(path@ =~= parent@.push(path@.last()));
    }
}

/// An extension is what stands behind the last dot of a name, unless that dot
/// opens it.
pub proof fn law_an_extension_stands_behind_the_last_dot(
    path: FsPath,
    stem: Seq<char>,
    extension: Seq<char>,
    r: Option<String>,
)
    requires
        call_ensures(FsPath::extension, (&path,), r),
        path@.len() > 0,
        path@.last() == Part::Normal(stem.push('.') + extension),
        forall|i: int| 0 <= i < extension.len() ==> #[trigger] extension[i] != '.',
    ensures
        stem.len() > 0 ==> r is Some && r->0@ == extension,
        stem.len() == 0 ==> r is None,
{
    let name = stem.push('.') + extension;
    let i = stem.len() as int;
    assert(name[i] == '.');
    assert forall|j: int| i < j < name.len() implies name[j] != '.' by {
        assert(name[j] == extension[j - i - 1]);
    }
    lemma_last_dot_unique(name, i);
    assert(name.skip(i + 1) =~= extension);
}

/// Paths are ordered, and a directory comes before all that lies in it.
pub proof fn law_paths_are_ordered(
    a: FsPath,
    b: FsPath,
    c: FsPath,
    ab: Order,
    ba: Order,
    bc: Order,
    ac: Order,
)
    requires
        call_ensures(FsPath::order, (&a, &b), ab),
        call_ensures(FsPath::order, (&b, &a), ba),
        call_ensures(FsPath::order, (&b, &c), bc),
        call_ensures(FsPath::order, (&a, &c), ac),
    ensures
        ab is Equal <==> a@ == b@,
        ab is Less <==> ba is Greater,
        ab is Less && bc is Less ==> ac is Less,
        a@.len() < b@.len() && b@.take(a@.len() as int) == a@ ==> ab is Less,
{
    if a@ != b@ {
        lemma_path_less_total(a@, b@);
        if path_less(a@, b@) && path_less(b@, a@) {
            lemma_path_less_transitive(a@, b@, a@);
            lemma_path_less_irreflexive(a@);
        }
    }
    if ab is Less && bc is Less {
        lemma_path_less_transitive(a@, b@, c@);
        lemma_path_less_irreflexive(a@);
    }
    if a@.len() < b@.len() && b@.take(a@.len() as int) == a@ {
        lemma_directory_comes_first(a@, b@);
    }
}

proof fn lemma_directory_comes_first(a: Seq<Part>, b: Seq<Part>)
    requires
        a.len() < b.len(),
        b.take(a.len() as int) == a,
    ensures
        path_less(a, b),
    decreases a.len(),
{
    if a.len() > 0 {
        assert(a[0] == b.take(a.len() as int)[0]);
        assert(b.drop_first().take(a.len() - 1) =~= a.drop_first());
        lemma_directory_comes_first(a.drop_first(), b.drop_first());
    }
}

} // verus!
