//! Local paths, and the check that a path stays below the sync root without symbolic links.
use crate::order::{component_rank, path_less, rank_of, rank_paths, Rank};
use crate::text::{chars_of, copy_texts, has_char, texts};
use vstd::prelude::*;

verus! {

/// A local path as its components. The root directory is the component `/`; `.` and `..` stand
/// for the current and the parent directory.
#[derive(Debug, Clone, PartialEq, Eq)]
pub struct LocalPath {
    pub components: Vec<String>,
}

impl View for LocalPath {
    type V = Seq<Seq<char>>;

    open spec fn view(&self) -> Seq<Seq<char>> {
        texts(self.components@)
    }
}

/// Whether a path starts at the root directory.
pub open spec fn absolute(path: Seq<Seq<char>>) -> bool {
    path.len() > 0 && component_rank(path[0]) == 0
}

/// Whether `path` is `base` or lies below it.
pub open spec fn below(path: Seq<Seq<char>>, base: Seq<Seq<char>>) -> bool {
    base.len() <= path.len() && path.take(base.len() as int) == base
}

/// Whether `name` can stand for one entry of a directory: it is not empty, names neither the
/// directory itself nor its parent, and holds neither a separator nor NUL.
pub open spec fn plain_name(name: Seq<char>) -> bool {
    &&& name.len() > 0
    &&& name != seq!['.']
    &&& name != seq!['.', '.']
    &&& !name.contains('/')
    &&& !name.contains('\0')
}

/// Whether `name` can stand for one entry of a directory.
pub fn is_plain_name(name: &str) -> (plain: bool)
    ensures
        plain == plain_name(name@),
{
    let chars = chars_of(name);
    if chars.len() == 0 {
        return false;
    }
    if chars.len() == 1 && chars[0] == '.' {
        assert(name@ =~= seq!['.']);
        return false;
    }
    if chars.len() == 2 && chars[0] == '.' && chars[1] == '.' {
        assert(name@ =~= seq!['.', '.']);
        return false;
    }
    !has_char(name, '/') && !has_char(name, '\0')
}

/// The texts of `parts`, with a slash between each two.
pub open spec fn slash_joined(parts: Seq<Seq<char>>) -> Seq<char>
    decreases parts.len(),
{
    if parts.len() == 0 {
        Seq::empty()
    } else if parts.len() == 1 {
        parts[0]
    } else {
        slash_joined(parts.drop_last()).push('/') + parts.last()
    }
}

/// The text of a path.
pub open spec fn path_text(path: Seq<Seq<char>>) -> Seq<char> {
    if absolute(path) {
        seq!['/'] + slash_joined(path.drop_first())
    } else {
        slash_joined(path)
    }
}

impl LocalPath {
    /// A copy of the path.
    pub fn duplicate(&self) -> (copy: LocalPath)
        ensures
            copy@ == self@,
    {
        LocalPath { components: copy_texts(&self.components) }
    }

    /// Compares two paths.
    pub fn rank(&self, other: &LocalPath) -> (rank: Rank)
        ensures
            rank == rank_of(path_less(self@, other@), self@ == other@),
            rank == Rank::Greater ==> path_less(other@, self@),
    {
        rank_paths(&self.components, &other.components)
    }

    /// Whether two paths have the same components.
    pub fn same(&self, other: &LocalPath) -> (same: bool)
        ensures
            same == (self@ == other@),
    {
        if self.components.len() != other.components.len() {
            assert(self@.len() != other@.len());
            return false;
        }
        self.is_below(other)
    }

    /// The number of components.
    pub fn depth(&self) -> (depth: usize)
        ensures
            depth == self@.len(),
    {
        self.components.len()
    }

    /// The path of the entry `name` of this directory.
    pub fn join(&self, name: &str) -> (path: LocalPath)
        ensures
            path@ == self@.push(name@),
    {
        let mut components = copy_texts(&self.components);
        components.push(name.to_owned());
        let path = LocalPath { components };
        assert(path@ =~= self@.push(name@)) by {
            assert forall|i: int| 0 <= i < self@.len() implies path@[i] == self@[i] by {
                assert(texts(self.components@)[i] == self.components@[i]@);
            }
        }
        path
    }

    /// The first `n` components.
    pub fn prefix(&self, n: usize) -> (path: LocalPath)
        requires
            n <= self@.len(),
        ensures
            path@ == self@.take(n as int),
    {
        let mut components: Vec<String> = Vec::new();
        let mut i: usize = 0;
        while i < n
            invariant
                i <= n <= self.components.len(),
                components.len() == i,
                forall|k: int| 0 <= k < i ==> components@[k]@ == self.components@[k]@,
            decreases n - i,
        {
            components.push(self.components[i].clone());
            i += 1;
        }
        assert(texts(components@) =~= self@.take(n as int));
        LocalPath { components }
    }

    /// Whether this path is `base` or lies below it.
    pub fn is_below(&self, base: &LocalPath) -> (yes: bool)
        ensures
            yes == below(self@, base@),
            self@.len() == base@.len() ==> yes == (self@ == base@),
    {
        if base.components.len() > self.components.len() {
            return false;
        }
        let mut i: usize = 0;
        while i < base.components.len()
            invariant
                i <= base.components.len() <= self.components.len(),
                forall|k: int| 0 <= k < i ==> self@[k] == base@[k],
            decreases base.components.len() - i,
        {
            if self.components[i] != base.components[i] {
                assert(self@[i as int] != base@[i as int]);
                assert(self@.take(base@.len() as int)[i as int] == self@[i as int]);
                return false;
            }
            assert(self@[i as int] == base@[i as int]);
            i += 1;
        }
        assert(self@.take(base@.len() as int) =~= base@);
        assert(self@.len() == base@.len() ==> self@ =~= base@);
        true
    }

    /// Whether the path starts at the root directory.
    pub fn is_absolute(&self) -> (yes: bool)
        ensures
            yes == absolute(self@),
    {
        if self.components.len() == 0 {
            return false;
        }
        let first = chars_of(self.components[0].as_str());
        assert(self@[0] == first@);
        if first.len() == 1 && first[0] == '/' {
            assert(first@ =~= seq!['/']);
            true
        } else {
            false
        }
    }

    /// The text of the path.
    pub fn text(&self) -> (text: String)
        ensures
            text@ == path_text(self@),
    {
        let mut text = String::new();
        let mut i: usize = 0;
        let from: usize = if self.is_absolute() {
            text.push('/');
            1
        } else {
            0
        };
        let ghost rest = self@.skip(from as int);
        let ghost start = text@;
        i = from;
        assert(rest.take(0) =~= Seq::<Seq<char>>::empty());
        while i < self.components.len()
            invariant
                from <= i <= self.components.len(),
                rest == self@.skip(from as int),
                text@ == start + slash_joined(rest.take(i - from)),
            decreases self.components.len() - i,
        {
            let ghost before = text@;
            if i > from {
                text.push('/');
            }
            text.append(self.components[i].as_str());
            proof {
                let head = rest.take(i - from);
                let more = rest.take(i + 1 - from);
                assert(more.drop_last() =~= head);
                assert(more.last() == self@[i as int]);
                assert(self@[i as int] == self.components@[i as int]@);
                if i > from {
                    assert(text@ =~= start + (slash_joined(head).push('/') + more.last()));
                } else {
                    assert(head.len() == 0);
                    assert(more.len() == 1);
                    assert(more[0] == self@[i as int]);
                    assert(text@ =~= start + slash_joined(more));
                }
            }
            i += 1;
        }
        proof {
            assert(rest.take(i - from) =~= rest);
            if absolute(self@) {
                assert(rest =~= self@.drop_first());
                assert(start =~= seq!['/']);
            } else {
                assert(rest =~= self@);
                assert(text@ =~= slash_joined(rest));
            }
        }
        text
    }
}

/// What the file system holds at a path, symbolic links not followed.
#[derive(Debug, Clone, PartialEq, Eq)]
pub enum Probe {
    /// There is nothing.
    Missing,
    /// There is an entry that is no symbolic link.
    Entry,
    /// There is a symbolic link.
    Symlink,
    /// The file system refused to tell, in these words.
    Unreadable(String),
}

/// Why a path is refused.
#[derive(Debug, Clone, PartialEq, Eq)]
pub enum PathError {
    RootNotAbsolute,
    OutsideRoot,
    UnsafeComponent,
    Symlink(LocalPath),
    Unreadable(String),
}

/// Why a path is refused, with the offending path by its components.
pub enum PathErrorView {
    RootNotAbsolute,
    OutsideRoot,
    UnsafeComponent,
    Symlink(Seq<Seq<char>>),
    Unreadable(Seq<char>),
}

impl View for PathError {
    type V = PathErrorView;

    open spec fn view(&self) -> PathErrorView {
        match *self {
            PathError::RootNotAbsolute => PathErrorView::RootNotAbsolute,
            PathError::OutsideRoot => PathErrorView::OutsideRoot,
            PathError::UnsafeComponent => PathErrorView::UnsafeComponent,
            PathError::Symlink(at) => PathErrorView::Symlink(at@),
            PathError::Unreadable(words) => PathErrorView::Unreadable(words@),
        }
    }
}

impl PathError {
    /// A copy of the error.
    pub fn duplicate(&self) -> (copy: PathError)
        ensures
            copy@ == self@,
    {
        match self {
            PathError::RootNotAbsolute => PathError::RootNotAbsolute,
            PathError::OutsideRoot => PathError::OutsideRoot,
            PathError::UnsafeComponent => PathError::UnsafeComponent,
            PathError::Symlink(at) => PathError::Symlink(at.duplicate()),
            PathError::Unreadable(words) => PathError::Unreadable(words.clone()),
        }
    }

    /// The text that tells of the error.
    pub fn message(&self) -> (text: String)
        ensures
            text@ == path_error_text(self@),
    {
        match self {
            PathError::RootNotAbsolute => "Sync root must be absolute".to_owned(),
            PathError::OutsideRoot => "Path outside sync root".to_owned(),
            PathError::UnsafeComponent => "Unsafe path component".to_owned(),
            PathError::Symlink(at) => {
                "Symlinks are not supported: ".to_owned().concat(at.text().as_str())
            },
            PathError::Unreadable(words) => words.clone(),
        }
    }

    /// What lies behind the error, where there is more to tell.
    pub fn cause(&self) -> (text: Option<&'static str>)
        ensures
            match text {
                Some(text) => path_error_cause(self@) == Some(text@),
                None => path_error_cause(self@) is None,
            },
    {
        match self {
            PathError::OutsideRoot => Some("prefix not found"),
            _ => None,
        }
    }
}

/// What lies behind the refusal of a path, where there is more to tell.
pub open spec fn path_error_cause(error: PathErrorView) -> Option<Seq<char>> {
    match error {
        PathErrorView::OutsideRoot => Some("prefix not found"@),
        _ => None,
    }
}

/// The text that tells of a refused path.
pub open spec fn path_error_text(error: PathErrorView) -> Seq<char> {
    match error {
        PathErrorView::RootNotAbsolute => "Sync root must be absolute"@,
        PathErrorView::OutsideRoot => "Path outside sync root"@,
        PathErrorView::UnsafeComponent => "Unsafe path component"@,
        PathErrorView::Symlink(at) => "Symlinks are not supported: "@ + path_text(at),
        PathErrorView::Unreadable(words) => words,
    }
}

/// Whether a component leads out of the place where it stands.
pub open spec fn unsafe_component(component: Seq<char>) -> bool {
    component_rank(component) == 1 || component_rank(component) == 2
}

/// Why the component at `i` is refused, given what the file system holds at the path up to it.
pub open spec fn component_fault(path: Seq<Seq<char>>, i: int, probe: Probe) -> Option<PathErrorView> {
    if unsafe_component(path[i]) {
        Some(PathErrorView::UnsafeComponent)
    } else {
        match probe {
            Probe::Symlink => Some(PathErrorView::Symlink(path.take(i + 1))),
            Probe::Unreadable(words) => Some(PathErrorView::Unreadable(words@)),
            Probe::Missing | Probe::Entry => None,
        }
    }
}

/// The first fault among the components from `i` on; `probes[k]` is what the file system holds
/// at the path up to and with component `k`.
pub open spec fn first_fault(path: Seq<Seq<char>>, probes: Seq<Probe>, i: int) -> Option<PathErrorView>
    decreases path.len() - i,
{
    if i < 0 || i >= path.len() {
        None
    } else {
        match component_fault(path, i, probes[i]) {
            Some(fault) => Some(fault),
            None => first_fault(path, probes, i + 1),
        }
    }
}

/// Why `path` is refused below `root`, if it is.
pub open spec fn path_fault(
    root: Seq<Seq<char>>,
    path: Seq<Seq<char>>,
    probes: Seq<Probe>,
) -> Option<PathErrorView> {
    if !absolute(root) {
        Some(PathErrorView::RootNotAbsolute)
    } else if !below(path, root) {
        Some(PathErrorView::OutsideRoot)
    } else {
        first_fault(path, probes, 0)
    }
}

/// The outcome of a check, by its view.
pub open spec fn check_view<T>(outcome: Result<T, PathError>) -> Option<PathErrorView> {
    match outcome {
        Ok(_) => None,
        Err(error) => Some(error@),
    }
}

/// A copy of the outcome of a check.
pub fn copy_check(outcome: &Result<(), PathError>) -> (copy: Result<(), PathError>)
    ensures
        check_view(copy) == check_view(*outcome),
{
    match outcome {
        Ok(()) => Ok(()),
        Err(error) => Err(error.duplicate()),
    }
}

/// A check of a path under way: it asks for one prefix of the path after the other.
#[derive(Debug)]
pub struct PathCheck {
    path: LocalPath,
    passed: usize,
}

impl PathCheck {
    /// The path that is checked.
    pub closed spec fn target(&self) -> Seq<Seq<char>> {
        self.path@
    }

    /// How many components have passed.
    pub closed spec fn passed(&self) -> nat {
        self.passed as nat
    }

    /// The number of components that have passed never exceeds those of the path.
    pub open spec fn wf(&self) -> bool {
        self.passed() <= self.target().len()
    }

    /// Starts the check of `path` below `root`.
    pub fn begin(root: &LocalPath, path: &LocalPath) -> (check: Result<PathCheck, PathError>)
        ensures
            match check {
                Ok(check) => check.wf() && check.target() == path@ && check.passed() == 0 && absolute(
                    root@,
                ) && below(path@, root@),
                Err(error) => error@ == (if !absolute(root@) {
                    PathErrorView::RootNotAbsolute
                } else {
                    PathErrorView::OutsideRoot
                }) && (absolute(root@) ==> !below(path@, root@)),
            },
    {
        if !root.is_absolute() {
            return Err(PathError::RootNotAbsolute);
        }
        if !path.is_below(root) {
            return Err(PathError::OutsideRoot);
        }
        Ok(PathCheck { path: path.duplicate(), passed: 0 })
    }

    /// The prefix at which the file system has to be asked next, none when all have passed.
    pub fn next(&self) -> (prefix: Result<Option<LocalPath>, PathError>)
        requires
            self.wf(),
        ensures
            match prefix {
                Ok(None) => self.passed() == self.target().len(),
                Ok(Some(prefix)) => self.passed() < self.target().len() && prefix@
                    == self.target().take(self.passed() as int + 1) && !unsafe_component(
                    self.target()[self.passed() as int],
                ),
                Err(error) => self.passed() < self.target().len() && unsafe_component(
                    self.target()[self.passed() as int],
                ) && error@ == PathErrorView::UnsafeComponent,
            },
    {
        if self.passed == self.path.components.len() {
            return Ok(None);
        }
        let chars = chars_of(self.path.components[self.passed].as_str());
        assert(chars@ == self.path@[self.passed as int]);
        if chars.len() == 1 && chars[0] == '.' {
            assert(chars@ =~= seq!['.']);
            return Err(PathError::UnsafeComponent);
        }
        if chars.len() == 2 && chars[0] == '.' && chars[1] == '.' {
            assert(chars@ =~= seq!['.', '.']);
            return Err(PathError::UnsafeComponent);
        }
        Ok(Some(self.path.prefix(self.passed + 1)))
    }

    /// Takes in what the file system holds at the prefix that was asked for.
    pub fn observe(&mut self, probe: &Probe) -> (outcome: Result<(), PathError>)
        requires
            old(self).wf(),
            old(self).passed() < old(self).target().len(),
            !unsafe_component(old(self).target()[old(self).passed() as int]),
        ensures
            final(self).wf(),
            final(self).target() == old(self).target(),
            check_view(outcome) == component_fault(
                old(self).target(),
                old(self).passed() as int,
                *probe,
            ),
            final(self).passed() == old(self).passed() + (if outcome is Ok {
                1int
            } else {
                0int
            }),
    {
        assert(self.path@.len() == self.path.components.len());
        match probe {
            Probe::Symlink => Err(PathError::Symlink(self.path.prefix(self.passed + 1))),
            Probe::Unreadable(words) => Err(PathError::Unreadable(words.clone())),
            Probe::Missing | Probe::Entry => {
                self.passed = self.passed + 1;
                Ok(())
            },
        }
    }
}

/// Refuses symbolic links anywhere on `path`, including ancestors of a missing leaf, components
/// that lead elsewhere, and paths outside `root`. `probes[k]` is what the file system holds at
/// the path up to and with component `k`.
pub fn validate_path(root: &LocalPath, path: &LocalPath, probes: &Vec<Probe>) -> (outcome: Result<
    (),
    PathError,
>)
    requires
        path@.len() <= probes@.len(),
    ensures
        check_view(outcome) == path_fault(root@, path@, probes@),
{
    let mut check = match PathCheck::begin(root, path) {
        Ok(check) => check,
        Err(error) => {
            return Err(error);
        },
    };
    let mut i: usize = 0;
    while i < path.components.len()
        invariant
            check.wf(),
            check.target() == path@,
            check.passed() == i,
            i <= path.components.len() <= probes.len(),
            path_fault(root@, path@, probes@) == first_fault(path@, probes@, i as int),
        decreases path.components.len() - i,
    {
        match check.next() {
            Err(error) => {
                return Err(error);
            },
            Ok(_) => {},
        }
        match check.observe(&probes[i]) {
            Err(error) => {
                return Err(error);
            },
            Ok(()) => {},
        }
        i += 1;
    }
    Ok(())
}

proof fn lemma_no_fault(path: Seq<Seq<char>>, probes: Seq<Probe>, i: int, k: int)
    requires
        0 <= i <= k < path.len(),
        first_fault(path, probes, i) is None,
    ensures
        component_fault(path, k, probes[k]) is None,
    decreases path.len() - i,
{
    if i < k {
        lemma_no_fault(path, probes, i + 1, k);
    }
}

/// A path that passes lies below the root, holds no component that leads elsewhere, and no
/// symbolic link stands at any prefix of it.
pub proof fn lemma_valid_path_is_contained(
    root: Seq<Seq<char>>,
    path: Seq<Seq<char>>,
    probes: Seq<Probe>,
)
    requires
        path_fault(root, path, probes) is None,
    ensures
        absolute(root),
        below(path, root),
        forall|k: int|
            0 <= k < path.len() ==> !unsafe_component(#[trigger] path[k]) && (probes[k] is Missing
                || probes[k] is Entry),
{
    assert forall|k: int| 0 <= k < path.len() implies !unsafe_component(#[trigger] path[k]) && (
    probes[k] is Missing || probes[k] is Entry) by {
        lemma_no_fault(path, probes, 0, k);
    }
}

/// An entry with a plain name lies directly below its directory: joining it adds one component,
/// which leads nowhere else.
pub proof fn lemma_plain_name_stays(dir: Seq<Seq<char>>, name: Seq<char>)
    requires
        plain_name(name),
    ensures
        below(dir.push(name), dir),
        dir.push(name).len() == dir.len() + 1,
        component_rank(name) == 3,
        !unsafe_component(name),
{
    assert(dir.push(name).take(dir.len() as int) =~= dir);
    if name == seq!['/'] {
        assert(name[0] == '/');
        assert(name.contains('/'));
    }
}

/// What lies below a directory is what is reached from it by some more components.
pub proof fn lemma_below_is_reached(path: Seq<Seq<char>>, base: Seq<Seq<char>>, rest: Seq<Seq<char>>)
    ensures
        below(base + rest, base),
        below(path, base) ==> path == base + path.skip(base.len() as int),
{
    assert((base + rest).take(base.len() as int) =~= base);
    if below(path, base) {
        assert(path =~= base + path.skip(base.len() as int));
    }
}

/// A name is refused only where it is empty, stands for the directory itself or for its parent, or
/// holds a separator or a NUL: every other name is plain.
pub proof fn lemma_plain_names(name: Seq<char>)
    ensures
        plain_name(name) <==> name.len() > 0 && !(name.len() == 1 && name[0] == '.') && !(name.len()
            == 2 && name[0] == '.' && name[1] == '.') && forall|i: int|
            0 <= i < name.len() ==> #[trigger] name[i] != '/' && name[i] != '\0',
{
    if name.len() == 1 && name[0] == '.' {
        assert(name =~= seq!['.']);
    }
    if name.len() == 2 && name[0] == '.' && name[1] == '.' {
        assert(name =~= seq!['.', '.']);
    }
    if forall|i: int| 0 <= i < name.len() ==> #[trigger] name[i] != '/' && name[i] != '\0' {
        assert(!name.contains('/') && !name.contains('\0'));
    } else {
        let i = choose|i: int|
            0 <= i < name.len() && !(#[trigger] name[i] != '/' && name[i] != '\0');
        assert(name.contains(name[i]));
    }
}

proof fn lemma_first_fault(path: Seq<Seq<char>>, probes: Seq<Probe>, i: int) -> (k: int)
    requires
        0 <= i,
        first_fault(path, probes, i) is Some,
    ensures
        i <= k < path.len(),
        component_fault(path, k, probes[k]) == first_fault(path, probes, i),
        forall|j: int| i <= j < k ==> component_fault(path, j, #[trigger] probes[j]) is None,
    decreases path.len() - i,
{
    if component_fault(path, i, probes[i]) is Some {
        i
    } else {
        lemma_first_fault(path, probes, i + 1)
    }
}

/// A path is refused only for a reason: a root that is not absolute, a path that is not below it, a
/// component that leads elsewhere, or a symbolic link or an entry that cannot be read on the way. The
/// first of them is told.
pub proof fn lemma_refused_paths_have_reasons(
    root: Seq<Seq<char>>,
    path: Seq<Seq<char>>,
    probes: Seq<Probe>,
)
    ensures
        path_fault(root, path, probes) == Some(PathErrorView::RootNotAbsolute) <==> !absolute(root),
        path_fault(root, path, probes) == Some(PathErrorView::OutsideRoot) <==> absolute(root)
            && !below(path, root),
        absolute(root) && below(path, root) && (forall|k: int|
            0 <= k < path.len() ==> !unsafe_component(path[k]) && ((#[trigger] probes[k]) is Missing
                || probes[k] is Entry)) ==> path_fault(root, path, probes) is None,
        absolute(root) && below(path, root) ==> match path_fault(root, path, probes) {
            None => true,
            Some(PathErrorView::UnsafeComponent) => exists|k: int|
                0 <= k < path.len() && unsafe_component(#[trigger] path[k]),
            Some(PathErrorView::Symlink(at)) => exists|k: int|
                0 <= k < path.len() && (#[trigger] probes[k]) is Symlink && at == path.take(k + 1),
            Some(PathErrorView::Unreadable(words)) => exists|k: int|
                0 <= k < path.len() && ((#[trigger] probes[k]) matches Probe::Unreadable(told)
                    && told@ == words),
            Some(_) => false,
        },
{
    if absolute(root) && below(path, root) && first_fault(path, probes, 0) is Some {
        let k = lemma_first_fault(path, probes, 0);
        assert(component_fault(path, k, probes[k]) is Some);
        assert(unsafe_component(path[k]) || probes[k] is Symlink || probes[k] is Unreadable);
    }
}

/// The components that lead elsewhere are the directory itself and its parent; and a path is absolute
/// exactly where it begins with the root directory.
pub proof fn lemma_components(component: Seq<char>, path: Seq<Seq<char>>)
    ensures
        unsafe_component(component) <==> component == seq!['.'] || component == seq!['.', '.'],
        absolute(path) <==> path.len() > 0 && path[0] == seq!['/'],
{
    assert(seq!['/'] != seq!['.']) by {
        assert(seq!['/'][0] == '/');
    }
    assert(seq!['.', '.'].len() == 2);
}

/// The text of a path is that of its directory, a slash and its last component; right below the root
/// directory the slash is that of the root itself.
pub proof fn lemma_path_texts(dir: Seq<Seq<char>>, name: Seq<char>)
    ensures
        path_text(Seq::<Seq<char>>::empty()) == Seq::<char>::empty(),
        !absolute(seq![name]) ==> path_text(seq![name]) == name,
        path_text(seq![seq!['/']]) == seq!['/'],
        path_text(seq![seq!['/'], name]) == seq!['/'] + name,
        dir.len() > 1 || dir.len() == 1 && !absolute(dir) ==> path_text(dir.push(name)) == path_text(
            dir,
        ).push('/') + name,
{
    let root = seq![seq!['/']];
    assert(seq![name][0] == name);
    assert(component_rank(seq!['/']) == 0);
    assert(root[0] == seq!['/']);
    assert(root.drop_first() =~= Seq::<Seq<char>>::empty());
    assert(seq!['/'] + Seq::<char>::empty() =~= seq!['/']);
    assert(seq![seq!['/'], name][0] == seq!['/']);
    assert(seq![seq!['/'], name].drop_first() =~= seq![name]);
    if dir.len() > 1 || dir.len() == 1 && !absolute(dir) {
        let longer = dir.push(name);
        assert(longer[0] == dir[0]);
        if absolute(dir) {
            let rest = dir.drop_first();
            assert(longer.drop_first() =~= rest.push(name));
            assert(rest.push(name).drop_last() =~= rest);
            assert(seq!['/'] + (slash_joined(rest).push('/') + name) =~= (seq!['/'] + slash_joined(
                rest,
            )).push('/') + name);
        } else {
            assert(longer.drop_last() =~= dir);
        }
    }
}

} // verus!
