//! Paths as texts with their components, and which lies below which.

use vstd::prelude::*;

use crate::text;

verus! {

/// A component of a path.
#[derive(Debug)]
pub enum PathPart {
    Prefix(String),
    RootDir,
    CurDir,
    ParentDir,
    Normal(String),
}

/// A path: its text, whether it is absolute, and its components.
#[derive(Debug)]
pub struct PathText {
    pub text: String,
    pub absolute: bool,
    pub parts: Vec<PathPart>,
}

/// How paths compare: by components, or by text without regard to case.
#[derive(Debug, Clone, Copy, PartialEq, Eq, Structural)]
pub enum PathStyle {
    Unix,
    Windows,
}

/// A file operation that failed, by a number of the caller's.
#[derive(Debug, Clone, Copy, PartialEq, Eq, Structural)]
pub struct IoFault {
    pub number: u32,
}

#[derive(Debug, Clone, Copy, PartialEq, Eq, Structural)]
pub enum FileKind {
    File,
    Directory,
    Other,
}

/// A path that exists, in its canonical form.
#[derive(Debug)]
pub struct Canonical {
    pub path: PathText,
    pub kind: FileKind,
}

/// What was found on the way to a path: the first component that leads elsewhere,
/// if one does, and the path in its canonical form.
#[derive(Debug)]
pub struct Resolution {
    pub reparse: Result<Option<String>, IoFault>,
    pub canonical: Result<Canonical, IoFault>,
}

/// A root as it was given, and what was found there.
#[derive(Debug)]
pub struct RootObservation {
    pub path: PathText,
    pub seen: Resolution,
}

#[verifier::ext_equal]
pub enum PartModel {
    Prefix(Seq<char>),
    RootDir,
    CurDir,
    ParentDir,
    Normal(Seq<char>),
}

impl View for PathPart {
    type V = PartModel;

    open spec fn view(&self) -> PartModel {
        match self {
            PathPart::Prefix(name) => PartModel::Prefix(name@),
            PathPart::RootDir => PartModel::RootDir,
            PathPart::CurDir => PartModel::CurDir,
            PathPart::ParentDir => PartModel::ParentDir,
            PathPart::Normal(name) => PartModel::Normal(name@),
        }
    }
}

pub open spec fn part_models(parts: Seq<PathPart>) -> Seq<PartModel> {
    parts.map_values(|p: PathPart| p@)
}

/// A path by what it says.
#[verifier::ext_equal]
pub struct PathModel {
    pub text: Seq<char>,
    pub absolute: bool,
    pub parts: Seq<PartModel>,
}

impl View for PathText {
    type V = PathModel;

    open spec fn view(&self) -> PathModel {
        PathModel {
            text: self.text@,
            absolute: self.absolute,
            parts: part_models(self.parts@),
        }
    }
}

/// Some component leads up.
pub open spec fn leads_up(path: PathModel) -> bool {
    exists|i: int| 0 <= i < path.parts.len() && (#[trigger] path.parts[i]) is ParentDir
}

/// Some component leads up or stays.
pub open spec fn has_relative_part(path: PathModel) -> bool {
    exists|i: int|
        0 <= i < path.parts.len() && ((#[trigger] path.parts[i]) is ParentDir
            || path.parts[i] is CurDir)
}

/// The text with backslashes and small letters.
pub open spec fn folded(s: Seq<char>) -> Seq<char> {
    text::ascii_lower(text::replace_char(s, '/', '\\'))
}

/// `s` without the backslashes it ends with.
pub open spec fn without_end_slashes(s: Seq<char>) -> Seq<char>
    decreases s.len(),
{
    if s.len() > 0 && s.last() == '\\' {
        without_end_slashes(s.drop_last())
    } else {
        s
    }
}

/// The folded text without backslashes at its end.
pub open spec fn folded_directory(s: Seq<char>) -> Seq<char> {
    text::ascii_lower(without_end_slashes(text::replace_char(s, '/', '\\')))
}

/// By texts that were folded, `path` is `root` or lies below it.
pub open spec fn folded_within(path: Seq<char>, root: Seq<char>) -> bool {
    folded_directory(path) == folded_directory(root) || folded_directory(root).push(
        '\\',
    ).is_prefix_of(folded_directory(path))
}

/// The path is one of the roots or lies below one.
pub open spec fn below_some(path: PathText, roots: Seq<PathText>) -> bool {
    exists|i: int|
        0 <= i < roots.len() && folded_within(path.text@, (#[trigger] roots[i]).text@)
}

/// `path` is `root` or lies below it.
pub open spec fn is_within(style: PathStyle, path: PathModel, root: PathModel) -> bool {
    match style {
        PathStyle::Unix => root.parts.is_prefix_of(path.parts),
        PathStyle::Windows => folded(path.text) == folded(root.text) || folded(root.text).push(
            '\\',
        ).is_prefix_of(folded(path.text)),
    }
}

/// The two are the same path.
pub open spec fn is_same(style: PathStyle, a: PathModel, b: PathModel) -> bool {
    match style {
        PathStyle::Unix => a.parts == b.parts,
        PathStyle::Windows => text::ascii_lower(a.text) == text::ascii_lower(b.text),
    }
}

fn same_part(a: &PathPart, b: &PathPart) -> (r: bool)
    ensures
        r == (a@ == b@),
{
    match (a, b) {
        (PathPart::Prefix(x), PathPart::Prefix(y)) => text::same_text(x.as_str(), y.as_str()),
        (PathPart::RootDir, PathPart::RootDir) => true,
        (PathPart::CurDir, PathPart::CurDir) => true,
        (PathPart::ParentDir, PathPart::ParentDir) => true,
        (PathPart::Normal(x), PathPart::Normal(y)) => text::same_text(x.as_str(), y.as_str()),
        _ => false,
    }
}

pub fn parts_start(parts: &Vec<PathPart>, start: &Vec<PathPart>) -> (r: bool)
    ensures
        r == part_models(start@).is_prefix_of(part_models(parts@)),
{
    if start.len() > parts.len() {
        return false;
    }
    let ghost all = part_models(parts@);
    let ghost first = part_models(start@);
    let mut i: usize = 0;
    while i < start.len()
        invariant
            i <= start@.len() <= parts@.len(),
            all == part_models(parts@),
            first == part_models(start@),
            forall|k: int| 0 <= k < i ==> all[k] == first[k],
        decreases start@.len() - i,
    {
        assert(all[i as int] == parts@[i as int]@ && first[i as int] == start@[i as int]@);
        if !same_part(&parts[i], &start[i]) {
            proof {
                assert(all.subrange(0, first.len() as int)[i as int] == all[i as int]);
            }
            return false;
        }
        i = i + 1;
    }
    proof {
        assert(all.subrange(0, first.len() as int) =~= first);
    }
    true
}

pub fn goes_up(path: &PathText) -> (r: bool)
    ensures
        r == leads_up(path@),
{
    let mut i: usize = 0;
    while i < path.parts.len()
        invariant
            i <= path.parts@.len(),
            forall|k: int| 0 <= k < i ==> !((#[trigger] path@.parts[k]) is ParentDir),
        decreases path.parts@.len() - i,
    {
        if let PathPart::ParentDir = &path.parts[i] {
            assert(path@.parts[i as int] is ParentDir);
            return true;
        }
        i = i + 1;
    }
    false
}

pub fn relative_part(path: &PathText) -> (r: bool)
    ensures
        r == has_relative_part(path@),
{
    let mut i: usize = 0;
    while i < path.parts.len()
        invariant
            i <= path.parts@.len(),
            forall|k: int|
                0 <= k < i ==> !((#[trigger] path@.parts[k]) is ParentDir)
                    && !(path@.parts[k] is CurDir),
        decreases path.parts@.len() - i,
    {
        match &path.parts[i] {
            PathPart::ParentDir => {
                assert(path@.parts[i as int] is ParentDir);
                return true;
            },
            PathPart::CurDir => {
                assert(path@.parts[i as int] is CurDir);
                return true;
            },
            _ => {},
        }
        i = i + 1;
    }
    false
}

fn fold(s: &str) -> (r: Vec<char>)
    ensures
        r@ == folded(s@),
{
    let chars = text::chars_of(s);
    let slashed = text::replaced(chars.as_slice(), '/', '\\');
    text::lower_chars(slashed.as_slice())
}

fn fold_directory(s: &str) -> (r: Vec<char>)
    ensures
        r@ == folded_directory(s@),
{
    let chars = text::chars_of(s);
    let slashed = text::replaced(chars.as_slice(), '/', '\\');
    let ghost all = slashed@;
    let mut n: usize = slashed.len();
    proof {
        assert(all.take(all.len() as int) =~= all);
    }
    while n > 0 && slashed[n - 1] == '\\'
        invariant
            n <= slashed@.len(),
            all == slashed@,
            without_end_slashes(all.take(n as int)) == without_end_slashes(all),
        decreases n,
    {
        proof {
            assert(all.take(n as int).drop_last() =~= all.take(n - 1));
        }
        n = n - 1;
    }
    let head = vstd::slice::slice_subrange(slashed.as_slice(), 0, n);
    proof {
        assert(head@ =~= all.take(n as int));
        assert(n > 0 ==> all.take(n as int).last() == all[n - 1]);
    }
    text::lower_chars(head)
}

/// By folded texts, is `path` the root or below it?
pub fn within_folded(path: &str, root: &str) -> (r: bool)
    ensures
        r == folded_within(path@, root@),
{
    let p = fold_directory(path);
    let mut q = fold_directory(root);
    if text::same_chars(p.as_slice(), q.as_slice()) {
        return true;
    }
    q.push('\\');
    text::is_prefix(q.as_slice(), p.as_slice())
}

/// Is the path one of the roots or below one?
pub fn below_any(path: &PathText, roots: &Vec<PathText>) -> (r: bool)
    ensures
        r == below_some(*path, roots@),
{
    let mut i: usize = 0;
    while i < roots.len()
        invariant
            i <= roots@.len(),
            forall|k: int|
                0 <= k < i ==> !folded_within(path.text@, (#[trigger] roots@[k]).text@),
        decreases roots@.len() - i,
    {
        if within_folded(path.text.as_str(), roots[i].text.as_str()) {
            return true;
        }
        i = i + 1;
    }
    false
}

pub fn within(style: PathStyle, path: &PathText, root: &PathText) -> (r: bool)
    ensures
        r == is_within(style, path@, root@),
{
    match style {
        PathStyle::Unix => parts_start(&path.parts, &root.parts),
        PathStyle::Windows => {
            let p = fold(path.text.as_str());
            let mut q = fold(root.text.as_str());
            if text::same_chars(p.as_slice(), q.as_slice()) {
                return true;
            }
            q.push('\\');
            text::is_prefix(q.as_slice(), p.as_slice())
        },
    }
}

pub fn same_path(style: PathStyle, a: &PathText, b: &PathText) -> (r: bool)
    ensures
        r == is_same(style, a@, b@),
{
    match style {
        PathStyle::Unix => {
            let r = a.parts.len() == b.parts.len() && parts_start(&a.parts, &b.parts);
            proof {
                let x = part_models(a.parts@);
                let y = part_models(b.parts@);
                if r {
                    assert(x.subrange(0, y.len() as int) =~= x);
                }
                if x == y {
                    assert(x.len() == a.parts@.len() && y.len() == b.parts@.len());
                    assert(x.subrange(0, y.len() as int) =~= x);
                }
            }
            r
        },
        PathStyle::Windows => {
            let x = text::chars_of(a.text.as_str());
            let y = text::chars_of(b.text.as_str());
            let p = text::lower_chars(x.as_slice());
            let q = text::lower_chars(y.as_slice());
            text::same_chars(p.as_slice(), q.as_slice())
        },
    }
}

/// The name that a path ends in: its last component, where that is a name.
pub open spec fn last_name(path: PathModel) -> Option<Seq<char>> {
    if path.parts.len() > 0 && path.parts.last() is Normal {
        Some(path.parts.last()->Normal_0)
    } else {
        None
    }
}

pub fn file_name(path: &PathText) -> (name: Option<&String>)
    ensures
        name is Some == last_name(path@) is Some,
        name is Some ==> name->0@ == last_name(path@)->0,
{
    assert(path@.parts.len() == path.parts@.len());
    if path.parts.len() == 0 {
        return None;
    }
    assert(path@.parts.last() == path.parts@.last()@);
    match &path.parts[path.parts.len() - 1] {
        PathPart::Normal(name) => Some(name),
        _ => None,
    }
}

/// The same path once more.
pub fn copy_path(path: &PathText) -> (copy: PathText)
    ensures
        copy@ == path@,
{
    let mut parts: Vec<PathPart> = Vec::new();
    let mut i: usize = 0;
    while i < path.parts.len()
        invariant
            i <= path.parts@.len(),
            parts@.len() == i,
            forall|k: int| 0 <= k < i ==> (#[trigger] parts@[k])@ == path.parts@[k]@,
        decreases path.parts@.len() - i,
    {
        let part = match &path.parts[i] {
            PathPart::Prefix(name) => PathPart::Prefix(name.clone()),
            PathPart::RootDir => PathPart::RootDir,
            PathPart::CurDir => PathPart::CurDir,
            PathPart::ParentDir => PathPart::ParentDir,
            PathPart::Normal(name) => PathPart::Normal(name.clone()),
        };
        parts.push(part);
        i = i + 1;
    }
    proof {
        assert(part_models(parts@) =~= part_models(path.parts@));
    }
    PathText { text: path.text.clone(), absolute: path.absolute, parts }
}

/// The text ends so that a name can follow at once.
pub open spec fn ends_open(style: PathStyle, s: Seq<char>) -> bool {
    s.len() == 0 || s.last() == '/' || (style == PathStyle::Windows && s.last() == '\\')
}

/// The text of a name in a directory.
pub open spec fn joined_text(style: PathStyle, directory: Seq<char>, name: Seq<char>) -> Seq<char> {
    if ends_open(style, directory) {
        directory + name
    } else {
        directory.push(
            match style {
                PathStyle::Unix => '/',
                PathStyle::Windows => '\\',
            },
        ) + name
    }
}

/// The path of a plain name in a directory.
pub open spec fn joined(style: PathStyle, directory: PathModel, name: Seq<char>) -> PathModel {
    PathModel {
        text: joined_text(style, directory.text, name),
        absolute: directory.absolute,
        parts: directory.parts.push(PartModel::Normal(name)),
    }
}

/// A plain name in a directory.
pub fn join_name(style: PathStyle, directory: &PathText, name: &str) -> (path: PathText)
    ensures
        path@ == joined(style, directory@, name@),
{
    let copy = copy_path(directory);
    let mut chars = text::chars_of(directory.text.as_str());
    let open = if chars.len() == 0 {
        true
    } else {
        let last = chars[chars.len() - 1];
        match style {
            PathStyle::Unix => last == '/',
            PathStyle::Windows => last == '/' || last == '\\',
        }
    };
    if !open {
        match style {
            PathStyle::Unix => {
                chars.push('/');
            },
            PathStyle::Windows => {
                chars.push('\\');
            },
        }
    }
    text::push_text(&mut chars, name);
    let mut parts = copy.parts;
    let ghost before = part_models(parts@);
    parts.push(PathPart::Normal(text::copied(name)));
    proof {
        assert(part_models(parts@) =~= before.push(PartModel::Normal(name@)));
    }
    PathText { text: text::string_of(chars.as_slice()), absolute: copy.absolute, parts }
}

/// The path is that of something with a name in the directory.
pub open spec fn lies_in(style: PathStyle, path: PathModel, directory: PathModel) -> bool {
    last_name(path) is Some && joined(style, directory, last_name(path)->0) == path
}

/// Is the path that of something in the directory?
pub fn is_in(style: PathStyle, path: &PathText, directory: &PathText) -> (r: bool)
    ensures
        r == lies_in(style, path@, directory@),
{
    let name = match file_name(path) {
        None => {
            return false;
        },
        Some(name) => name,
    };
    let there = join_name(style, directory, name.as_str());
    let r = there.absolute == path.absolute && text::same_text(
        there.text.as_str(),
        path.text.as_str(),
    ) && there.parts.len() == path.parts.len() && parts_start(&there.parts, &path.parts);
    proof {
        let x = part_models(there.parts@);
        let y = part_models(path.parts@);
        assert(x.len() == there.parts@.len() && y.len() == path.parts@.len());
        if x.len() == y.len() {
            assert(x.subrange(0, y.len() as int) =~= x);
        }
        if r {
            assert(there@ =~= path@);
        }
    }
    r
}

// ---------------------------------------------------------------------------
// Laws

/// A directory is within itself.
pub proof fn roots_contain_themselves(style: PathStyle, root: PathModel)
    ensures
        is_within(style, root, root),
        folded_within(root.text, root.text),
{
    let x = root.parts;
    assert(x.subrange(0, x.len() as int) =~= x);
}

/// What is below something below a directory is below the directory.
pub proof fn containment_is_transitive(style: PathStyle, a: PathModel, b: PathModel, c: PathModel)
    requires
        is_within(style, a, b),
        is_within(style, b, c),
    ensures
        is_within(style, a, c),
{
    match style {
        PathStyle::Unix => {
            let x = a.parts;
            let y = b.parts;
            let z = c.parts;
            assert(x.subrange(0, z.len() as int) =~= x.subrange(0, y.len() as int).subrange(
                0,
                z.len() as int,
            ));
        },
        PathStyle::Windows => {
            let x = folded(a.text);
            let y = folded(b.text);
            let z = folded(c.text);
            let yb = y.push('\\');
            let zb = z.push('\\');
            if x != y && y != z {
                assert(x.subrange(0, zb.len() as int) =~= yb.subrange(0, zb.len() as int)) by {
                    assert(x.subrange(0, yb.len() as int) == yb);
                    assert forall|i: int| 0 <= i < zb.len() implies x[i] == yb[i] by {
                        assert(x.subrange(0, yb.len() as int)[i] == yb[i]);
                    }
                }
                assert(yb.subrange(0, zb.len() as int) =~= y.subrange(0, zb.len() as int));
            }
        },
    }
}

/// A directory is told by its text up to the slashes at its end, with backslashes for
/// slashes and small letters for capitals.
pub proof fn directories_are_told_without_slashes_at_the_end(s: Seq<char>)
    ensures
        ({
            let plain = folded_directory(s);
            let n = plain.len() as int;
            &&& n <= s.len()
            &&& forall|k: int| n <= k < s.len() ==> #[trigger] s[k] == '/' || s[k] == '\\'
            &&& n > 0 ==> s[n - 1] != '/' && s[n - 1] != '\\'
            &&& forall|k: int|
                0 <= k < n ==> #[trigger] plain[k] == (if s[k] == '/' {
                    '\\'
                } else {
                    text::lower(s[k])
                })
        }),
{
    let t = text::replace_char(s, '/', '\\');
    lemma_end_slashes(t);
    let n = without_end_slashes(t).len() as int;
    assert forall|k: int| n <= k < s.len() implies #[trigger] s[k] == '/' || s[k] == '\\' by {
        assert(t[k] == '\\');
    }
    assert(folded_directory(s).len() == n);
    if n > 0 {
        assert(t[n - 1] != '\\');
    }
}

proof fn lemma_end_slashes(t: Seq<char>)
    ensures
        ({
            let n = without_end_slashes(t).len() as int;
            &&& n <= t.len()
            &&& without_end_slashes(t) == t.take(n)
            &&& forall|k: int| n <= k < t.len() ==> #[trigger] t[k] == '\\'
            &&& n > 0 ==> t[n - 1] != '\\'
        }),
    decreases t.len(),
{
    if t.len() > 0 && t.last() == '\\' {
        lemma_end_slashes(t.drop_last());
        let n = without_end_slashes(t).len() as int;
        assert(t.drop_last().take(n) =~= t.take(n));
        assert forall|k: int| n <= k < t.len() implies #[trigger] t[k] == '\\' by {
            if k < t.len() - 1 {
                assert(t.drop_last()[k] == t[k]);
            }
        }
    } else {
        assert(t.take(t.len() as int) =~= t);
    }
}

/// A path is below a root if and only if it goes on behind the root, as directories are
/// told, with a backslash, or is the root. A directory whose name merely begins like the
/// root's is not below it.
pub proof fn paths_below_a_root_go_on_with_a_slash(path: Seq<char>, root: Seq<char>)
    ensures
        folded_within(path, root) == {
            let p = folded_directory(path);
            let r = folded_directory(root);
            &&& p.len() >= r.len()
            &&& forall|k: int| 0 <= k < r.len() ==> #[trigger] p[k] == r[k]
            &&& p.len() == r.len() || p[r.len() as int] == '\\'
        },
{
    let p = folded_directory(path);
    let r = folded_directory(root);
    let d = r.push('\\');
    if d.is_prefix_of(p) {
        assert forall|k: int| 0 <= k < r.len() implies #[trigger] p[k] == r[k] by {
            assert(p.subrange(0, d.len() as int)[k] == d[k]);
        }
        assert(p.subrange(0, d.len() as int)[r.len() as int] == d[r.len() as int]);
    }
    if p.len() >= r.len() && (forall|k: int| 0 <= k < r.len() ==> #[trigger] p[k] == r[k]) {
        if p.len() == r.len() {
            assert(p =~= r);
        } else if p[r.len() as int] == '\\' {
            assert(p.subrange(0, d.len() as int) =~= d);
        }
    }
}

/// On Unix a path is below another whose components it begins with; on Windows, by its
/// text, with letters of either case and slashes of either kind the same, if it goes on
/// behind the other with a slash. The same paths have the same components on Unix, and the
/// same texts but for the case of letters on Windows.
pub proof fn styles_compare_components_or_texts(path: PathModel, root: PathModel)
    ensures
        is_within(PathStyle::Unix, path, root) == (path.parts.len() >= root.parts.len() && forall|
            k: int,
        |
            0 <= k < root.parts.len() ==> #[trigger] path.parts[k] == root.parts[k]),
        is_same(PathStyle::Unix, path, root) == (path.parts.len() == root.parts.len() && forall|
            k: int,
        |
            0 <= k < root.parts.len() ==> #[trigger] path.parts[k] == root.parts[k]),
        is_within(PathStyle::Windows, path, root) == {
            let same = |a: char, b: char|
                text::lower(if a == '/' { '\\' } else { a }) == text::lower(
                    if b == '/' { '\\' } else { b },
                );
            &&& path.text.len() >= root.text.len()
            &&& forall|k: int|
                0 <= k < root.text.len() ==> same(#[trigger] path.text[k], root.text[k])
            &&& path.text.len() == root.text.len() || path.text[root.text.len() as int] == '\\'
                || path.text[root.text.len() as int] == '/'
        },
        is_same(PathStyle::Windows, path, root) == (path.text.len() == root.text.len() && forall|
            k: int,
        |
            0 <= k < root.text.len() ==> text::lower(#[trigger] path.text[k]) == text::lower(
                root.text[k],
            )),
{
    let x = path.parts;
    let y = root.parts;
    if y.is_prefix_of(x) {
        assert forall|k: int| 0 <= k < y.len() implies #[trigger] x[k] == y[k] by {
            assert(x.subrange(0, y.len() as int)[k] == y[k]);
        }
    }
    if x.len() >= y.len() && (forall|k: int| 0 <= k < y.len() ==> #[trigger] x[k] == y[k]) {
        assert(x.subrange(0, y.len() as int) =~= y);
        if x.len() == y.len() {
            assert(x =~= y);
        }
    }
    let p = folded(path.text);
    let r = folded(root.text);
    let d = r.push('\\');
    let same = |a: char, b: char|
        text::lower(if a == '/' { '\\' } else { a }) == text::lower(
            if b == '/' { '\\' } else { b },
        );
    assert forall|k: int| 0 <= k < r.len() && k < p.len() implies (p[k] == r[k]) == same(
        #[trigger] path.text[k],
        root.text[k],
    ) by {}
    if p == r {
        assert forall|k: int| 0 <= k < r.len() implies same(
            #[trigger] path.text[k],
            root.text[k],
        ) by {
            assert(p[k] == r[k]);
        }
        assert(p.len() == r.len());
    } else if d.is_prefix_of(p) {
        assert forall|k: int| 0 <= k < r.len() implies same(
            #[trigger] path.text[k],
            root.text[k],
        ) by {
            assert(p.subrange(0, d.len() as int)[k] == d[k]);
            assert(p[k] == r[k]);
        }
        assert(p.subrange(0, d.len() as int)[r.len() as int] == d[r.len() as int]);
        assert(p[r.len() as int] == '\\');
    }
    if path.text.len() >= root.text.len() && (forall|k: int|
        0 <= k < root.text.len() ==> same(#[trigger] path.text[k], root.text[k])) {
        assert forall|k: int| 0 <= k < r.len() implies p[k] == r[k] by {
            assert(same(path.text[k], root.text[k]));
        }
        if path.text.len() == root.text.len() {
            assert(p =~= r);
        } else if path.text[root.text.len() as int] == '\\' || path.text[root.text.len() as int]
            == '/' {
            assert(p[r.len() as int] == '\\');
            assert(p.subrange(0, d.len() as int) =~= d);
        }
    }
    let a = text::ascii_lower(path.text);
    let b = text::ascii_lower(root.text);
    if a == b {
        assert(a.len() == b.len());
        assert forall|k: int| 0 <= k < root.text.len() implies text::lower(#[trigger] path.text[k])
            == text::lower(root.text[k]) by {
            assert(a[k] == b[k]);
        }
    }
    if path.text.len() == root.text.len() && (forall|k: int|
        0 <= k < root.text.len() ==> text::lower(#[trigger] path.text[k]) == text::lower(
            root.text[k],
        )) {
        assert(a =~= b);
    }
}

/// A name in a directory ends the path that it makes, behind one separator, and the path
/// is in the directory; nothing else of the directory changes.
pub proof fn joined_names_end_the_path(style: PathStyle, directory: PathModel, name: Seq<char>)
    ensures
        ({
            let path = joined(style, directory, name);
            &&& last_name(path) == Some(name)
            &&& lies_in(style, path, directory)
            &&& path.absolute == directory.absolute
            &&& path.parts == directory.parts.push(PartModel::Normal(name))
            &&& name.is_suffix_of(path.text)
            &&& directory.text.is_prefix_of(path.text)
            &&& directory.text.len() > 0 && directory.text.last() != '/' && directory.text.last()
                != '\\' ==> path.text == directory.text + (match style {
                PathStyle::Unix => seq!['/'],
                PathStyle::Windows => seq!['\\'],
            }) + name
            &&& directory.text.len() == 0 || directory.text.last() == '/' ==> path.text
                == directory.text + name
        }),
{
    let path = joined(style, directory, name);
    let n = directory.text.len() as int;
    assert(path.text.subrange(0, n) =~= directory.text);
    assert(path.text.subrange(path.text.len() - name.len(), path.text.len() as int) =~= name);
    match style {
        PathStyle::Unix => {
            assert(directory.text.push('/') + name =~= directory.text + seq!['/'] + name);
        },
        PathStyle::Windows => {
            assert(directory.text.push('\\') + name =~= directory.text + seq!['\\'] + name);
        },
    }
}

/// A path leads up where one of its components does.
pub proof fn components_that_lead_up_are_found(path: PathModel, i: int)
    requires
        0 <= i < path.parts.len(),
    ensures
        path.parts[i] is ParentDir ==> leads_up(path) && has_relative_part(path),
        path.parts[i] is CurDir ==> has_relative_part(path),
        (forall|k: int| 0 <= k < path.parts.len() ==> (#[trigger] path.parts[k]) is Normal)
            ==> !leads_up(path) && !has_relative_part(path),
{
}

} // verus!
