//! Searching below a directory: for files by a pattern of their names, and for
//! what files hold.

use vstd::prelude::*;

use crate::broker::Authorization;
use crate::encodings;
use crate::files;
use crate::files::{FsError, FsFault, FsWorker, Metadata, Walk, MAX_LIST_DEPTH};
use crate::passages;
use crate::paths;
use crate::paths::{FileKind, PartModel, PathModel, PathPart, PathText, Resolution};
use crate::text;

verus! {

pub const MAX_SEARCH_RESULTS: usize = 10_000;

pub const MAX_CONTENT_MATCHES: usize = 10_000;

pub const MAX_SEARCH_FILE_BYTES: usize = 8_388_608;

/// How long a search may take, in nanoseconds.
pub const MAX_SEARCH_DURATION: u128 = 5_000_000_000;

pub const MAX_LINE_TEXT_BYTES: usize = 4_096;

/// A place in a file where something was found. The column is that of the line's
/// text in UTF-8, in bytes, from one on.
#[derive(Debug, Clone, PartialEq, Eq)]
pub struct ContentMatch {
    pub file: String,
    pub encoding: String,
    pub line: usize,
    pub column: usize,
    pub line_text: String,
    pub truncated: bool,
}

#[derive(Debug, Clone, PartialEq, Eq)]
pub struct ContentSearchResult {
    pub matches: Vec<ContentMatch>,
    pub skipped_binary_files: usize,
    pub skipped_size_limit_files: usize,
}

// ---------------------------------------------------------------------------
// Patterns

/// `regex::Regex`, a pattern that was compiled.
#[verifier::external_type_specification]
#[verifier::external_body]
pub struct ExRegex(regex::Regex);

/// The pattern that was compiled, as it was written.
pub uninterp spec fn pattern_text(re: regex::Regex) -> Seq<char>;

/// The text can be compiled.
pub uninterp spec fn is_pattern(pattern: Seq<char>) -> bool;

/// The pattern matches somewhere in the text.
pub uninterp spec fn pattern_matches(pattern: Seq<char>, s: Seq<char>) -> bool;

/// Where the matches of the pattern in the text begin, in bytes.
pub uninterp spec fn pattern_starts(pattern: Seq<char>, s: Seq<char>) -> Seq<usize>;

/// `regex::Regex::new`: compiles a pattern, if it is one. What was compiled keeps
/// the pattern as it was written.
#[verifier::external_body]
fn compile(pattern: &str) -> (r: Option<regex::Regex>)
    ensures
        r is Some == is_pattern(pattern@),
        r is Some ==> pattern_text(r->0) == pattern@,
{
    regex::Regex::new(pattern).ok()
}

/// `regex::Regex::is_match`: does the pattern match somewhere in the text?
#[verifier::external_body]
fn is_match(re: &regex::Regex, s: &str) -> (r: bool)
    ensures
        r == pattern_matches(pattern_text(*re), s@),
{
    re.is_match(s)
}

/// `regex::Regex::find_iter`, with `regex::Match::start` of each: where the
/// matches begin. Each begins within the text, and no text has more than
/// `isize::MAX` bytes.
#[verifier::external_body]
fn find_starts(re: &regex::Regex, s: &str) -> (r: Vec<usize>)
    ensures
        r@ == pattern_starts(pattern_text(*re), s@),
        forall|i: int| 0 <= i < r@.len() ==> (#[trigger] r@[i]) < usize::MAX,
{
    re.find_iter(s).map(|found| found.start()).collect()
}

/// A character with a meaning of its own in a pattern.
pub open spec fn is_meta(c: char) -> bool {
    c == '\\' || c == '.' || c == '+' || c == '*' || c == '?' || c == '(' || c == ')' || c == '|'
        || c == '[' || c == ']' || c == '{' || c == '}' || c == '^' || c == '$' || c == '#' || c
        == '&' || c == '-' || c == '~'
}

/// The text as a pattern that matches nothing but it.
pub open spec fn escaped(s: Seq<char>) -> Seq<char>
    decreases s.len(),
{
    if s.len() == 0 {
        Seq::empty()
    } else if is_meta(s.last()) {
        escaped(s.drop_last()).push('\\').push(s.last())
    } else {
        escaped(s.drop_last()).push(s.last())
    }
}

/// `regex::escape`: puts a backslash before every character that has a meaning of
/// its own in a pattern.
#[verifier::external_body]
fn escape(s: &str) -> (r: String)
    ensures
        r@ == escaped(s@),
{
    regex::escape(s)
}

// ---------------------------------------------------------------------------
// Patterns of file names

/// What stands for the part of a name pattern from `i` on: two stars for any
/// directories, a star for anything within one name, a question mark for one
/// character of a name.
pub open spec fn glob_from(chars: Seq<char>, i: int) -> Seq<char>
    decreases chars.len() - i,
{
    if i < 0 || i >= chars.len() {
        "$"@
    } else if chars[i] == '*' && i + 1 < chars.len() && chars[i + 1] == '*' {
        if i + 2 < chars.len() && chars[i + 2] == '/' {
            "(?:.*/)?"@ + glob_from(chars, i + 3)
        } else {
            ".*"@ + glob_from(chars, i + 2)
        }
    } else if chars[i] == '*' {
        "[^/]*"@ + glob_from(chars, i + 1)
    } else if chars[i] == '?' {
        "[^/]"@ + glob_from(chars, i + 1)
    } else {
        escaped(seq![chars[i]]) + glob_from(chars, i + 1)
    }
}

/// The pattern that a pattern of file names stands for.
pub open spec fn glob_pattern(pattern: Seq<char>) -> Seq<char> {
    "^"@ + glob_from(text::replace_char(pattern, '\\', '/'), 0)
}

/// Why there is no such pattern of file names, if there is not.
pub open spec fn glob_fault(pattern: Seq<char>) -> Option<FsFault> {
    if pattern.len() == 0 || pattern.contains('\0') || !is_pattern(glob_pattern(pattern)) {
        Some(FsFault::InvalidPattern)
    } else {
        None
    }
}

/// The pattern, as text, that a pattern of file names stands for.
pub fn glob_text(pattern: &str) -> (r: String)
    ensures
        r@ == glob_pattern(pattern@),
{
    let raw = text::chars_of(pattern);
    let chars = text::replaced(raw.as_slice(), '\\', '/');
    let mut out = text::chars_of("^");
    let mut i: usize = 0;
    while i < chars.len()
        invariant
            i <= chars@.len(),
            chars@ == text::replace_char(pattern@, '\\', '/'),
            out@ + glob_from(chars@, i as int) == glob_pattern(pattern@),
        decreases chars@.len() - i,
    {
        let ghost before = out@;
        let c = chars[i];
        if c == '*' && chars.len() - i > 1 && chars[i + 1] == '*' {
            if chars.len() - i > 2 && chars[i + 2] == '/' {
                text::push_text(&mut out, "(?:.*/)?");
                i = i + 3;
            } else {
                text::push_text(&mut out, ".*");
                i = i + 2;
            }
        } else if c == '*' {
            text::push_text(&mut out, "[^/]*");
            i = i + 1;
        } else if c == '?' {
            text::push_text(&mut out, "[^/]");
            i = i + 1;
        } else {
            let mut one: Vec<char> = Vec::new();
            one.push(c);
            proof {
                assert(one@ =~= seq![c]);
            }
            let plain = text::string_of(one.as_slice());
            let safe = escape(plain.as_str());
            text::push_text(&mut out, safe.as_str());
            i = i + 1;
        }
        proof {
            let added = out@.skip(before.len() as int);
            assert(out@ =~= before + added);
            assert(out@ + glob_from(chars@, i as int) =~= before + (added + glob_from(
                chars@,
                i as int,
            )));
        }
    }
    text::push_text(&mut out, "$");
    text::string_of(out.as_slice())
}

fn glob_regex(pattern: &str) -> (r: Result<regex::Regex, FsError>)
    ensures
        r is Err == glob_fault(pattern@) is Some,
        r is Err ==> r->Err_0@ == FsFault::InvalidPattern,
        r is Ok ==> pattern_text(r->Ok_0) == glob_pattern(pattern@),
{
    let chars = text::chars_of(pattern);
    if chars.len() == 0 || text::contains_char(chars.as_slice(), '\0') {
        return Err(FsError::InvalidPattern);
    }
    let glob = glob_text(pattern);
    match compile(glob.as_str()) {
        None => Err(FsError::InvalidPattern),
        Some(re) => Ok(re),
    }
}

// ---------------------------------------------------------------------------
// Paths below a root

pub open spec fn part_text(part: PartModel) -> Seq<char> {
    match part {
        PartModel::Prefix(name) => name,
        PartModel::RootDir => Seq::empty(),
        PartModel::CurDir => "."@,
        PartModel::ParentDir => ".."@,
        PartModel::Normal(name) => name,
    }
}

pub open spec fn part_texts(parts: Seq<PartModel>) -> Seq<Seq<char>> {
    parts.map_values(|p: PartModel| part_text(p))
}

/// The path as it is seen from the root, with slashes.
pub open spec fn relative(path: PathModel, root: PathModel) -> Seq<char> {
    text::replace_char(
        if root.parts.is_prefix_of(path.parts) {
            text::join_with(part_texts(path.parts.skip(root.parts.len() as int)), "/"@)
        } else {
            path.text
        },
        '\\',
        '/',
    )
}

fn name_part(part: &PathPart) -> (r: Vec<char>)
    ensures
        r@ == part_text(part@),
{
    match part {
        PathPart::Prefix(name) => text::chars_of(name.as_str()),
        PathPart::RootDir => {
            let r: Vec<char> = Vec::new();
            proof {
                assert(r@ =~= Seq::empty());
            }
            r
        },
        PathPart::CurDir => text::chars_of("."),
        PathPart::ParentDir => text::chars_of(".."),
        PathPart::Normal(name) => text::chars_of(name.as_str()),
    }
}

fn relative_text(path: &PathText, root: &PathText) -> (r: String)
    ensures
        r@ == relative(path@, root@),
{
    let ghost model = path@.parts;
    let whole = if paths::parts_start(&path.parts, &root.parts) {
        let mut names: Vec<Vec<char>> = Vec::new();
        let mut i: usize = root.parts.len();
        let ghost rest = model.skip(root.parts@.len() as int);
        proof {
            assert(root@.parts.len() == root.parts@.len());
            assert(model.len() == path.parts@.len());
            assert(text::rows(names@) =~= part_texts(rest.take(0)));
        }
        while i < path.parts.len()
            invariant
                root.parts@.len() <= i <= path.parts@.len(),
                model == path@.parts,
                model.len() == path.parts@.len(),
                rest == model.skip(root.parts@.len() as int),
                text::rows(names@) == part_texts(rest.take(i - root.parts@.len())),
            decreases path.parts@.len() - i,
        {
            let ghost before = text::rows(names@);
            names.push(name_part(&path.parts[i]));
            proof {
                let k = i - root.parts@.len();
                assert(rest[k] == path.parts@[i as int]@);
                assert(part_texts(rest.take(k + 1)) =~= part_texts(rest.take(k)).push(
                    part_text(rest[k]),
                ));
                assert(text::rows(names@) =~= before.push(part_text(rest[k])));
            }
            i = i + 1;
        }
        proof {
            assert(rest.take(i - root.parts@.len()) =~= rest);
        }
        text::join(&names, "/")
    } else {
        text::chars_of(path.text.as_str())
    };
    let slashes = text::replaced(whole.as_slice(), '\\', '/');
    text::string_of(slashes.as_slice())
}

// ---------------------------------------------------------------------------
// Files by their names

/// A search for files under way.
pub struct FileSearch {
    pub root: PathText,
    pub matcher: regex::Regex,
    pub max_results: usize,
    pub found: Vec<String>,
}

/// Why files cannot be searched for, if they cannot.
pub open spec fn file_search_fault(
    worker: FsWorker,
    authorization: Authorization,
    target: PathText,
    seen: Resolution,
    pattern: Seq<char>,
    max_results: usize,
) -> Option<FsFault> {
    files::first(
        files::auto_fault(authorization, "filesystem.search_files"@, target.text@),
        files::first(
            if max_results == 0 || max_results > MAX_SEARCH_RESULTS {
                Some(FsFault::InvalidParameters)
            } else {
                None
            },
            files::first(files::existing_fault(worker, target, seen), glob_fault(pattern)),
        ),
    )
}

impl FsWorker {
    /// Begins to search for files whose names match a pattern.
    pub fn search_files(
        &self,
        authorization: &Authorization,
        target: &PathText,
        seen: &Resolution,
        pattern: &str,
        max_results: usize,
    ) -> (r: Result<(Walk, FileSearch), FsError>)
        ensures
            ({
                let fault = file_search_fault(
                    *self,
                    *authorization,
                    *target,
                    *seen,
                    pattern@,
                    max_results,
                );
                &&& r is Err == fault is Some
                &&& r is Err ==> r->Err_0@ == fault->0
            }),
            r is Ok ==> ({
                let (walk, search) = r->Ok_0;
                let root = seen.canonical->Ok_0.path@;
                &&& files::starts_at(walk, root, MAX_LIST_DEPTH)
                &&& search.root@ == root
                &&& pattern_text(search.matcher) == glob_pattern(pattern@)
                &&& search.max_results == max_results
                &&& search.found@.len() == 0
            }),
    {
        if let Err(error) = files::ensure_auto_action(
            authorization,
            "filesystem.search_files",
            target,
        ) {
            return Err(error);
        }
        if max_results == 0 || max_results > MAX_SEARCH_RESULTS {
            return Err(FsError::InvalidParameters);
        }
        let root = match self.resolve_existing(target, seen) {
            Err(error) => {
                return Err(error);
            },
            Ok(root) => root,
        };
        let matcher = match glob_regex(pattern) {
            Err(error) => {
                return Err(error);
            },
            Ok(matcher) => matcher,
        };
        Ok(
            (
                Walk::new(root, MAX_LIST_DEPTH),
                FileSearch {
                    root: paths::copy_path(root),
                    matcher,
                    max_results,
                    found: Vec::new(),
                },
            ),
        )
    }
}

/// The file is one that is searched for.
pub open spec fn is_wanted(matcher: Seq<char>, path: PathModel, root: PathModel, kind: FileKind) -> bool {
    kind == FileKind::File && pattern_matches(matcher, relative(path, root))
}

impl FileSearch {
    /// Takes in an entry, unless the search has taken longer than it may. Says
    /// whether the walk goes on. The time is in nanoseconds.
    pub fn visit(&mut self, path: &PathText, metadata: &Metadata, elapsed: u128) -> (r: Result<
        bool,
        FsError,
    >)
        ensures
            r is Err == (elapsed > MAX_SEARCH_DURATION),
            r is Err ==> r->Err_0 == FsError::SearchTimeout && *final(self) == *old(self),
            r is Ok ==> *final(self) == (FileSearch { found: final(self).found, ..*old(self) }),
            r is Ok ==> text::texts(final(self).found@) == (if is_wanted(
                pattern_text(old(self).matcher),
                path@,
                old(self).root@,
                metadata.kind,
            ) {
                text::texts(old(self).found@).push(path.text@)
            } else {
                text::texts(old(self).found@)
            }),
            r is Ok ==> r->Ok_0 == (final(self).found@.len() < final(self).max_results),
    {
        if elapsed > MAX_SEARCH_DURATION {
            return Err(FsError::SearchTimeout);
        }
        let name = relative_text(path, &self.root);
        if metadata.kind == FileKind::File && is_match(&self.matcher, name.as_str()) {
            self.found.push(path.text.clone());
            proof {
                assert(text::texts(self.found@) =~= text::texts(old(self).found@).push(
                    path.text@,
                ));
            }
        }
        Ok(self.found.len() < self.max_results)
    }
}

// ---------------------------------------------------------------------------
// What files hold

/// What is searched for: a text as it stands, or a pattern.
pub enum Query {
    Literal(Vec<char>),
    Pattern(regex::Regex),
}

/// What is searched for, by what it says.
pub enum QueryModel {
    Literal(Seq<char>),
    Pattern(Seq<char>),
}

impl View for Query {
    type V = QueryModel;

    open spec fn view(&self) -> QueryModel {
        match self {
            Query::Literal(chars) => QueryModel::Literal(chars@),
            Query::Pattern(re) => QueryModel::Pattern(pattern_text(*re)),
        }
    }
}

/// Where what is searched for begins in a line, in bytes.
pub open spec fn starts_in(query: QueryModel, line: Seq<char>) -> Seq<usize> {
    match query {
        QueryModel::Literal(chars) => passages::matches_from(line, chars, 0).map_values(
            |i: int| text::byte_len(line.take(i)) as usize,
        ),
        QueryModel::Pattern(pattern) => pattern_starts(pattern, line),
    }
}

/// A match by what it says.
#[verifier::ext_equal]
pub struct MatchModel {
    pub file: Seq<char>,
    pub encoding: Seq<char>,
    pub line: int,
    pub column: int,
    pub line_text: Seq<char>,
    pub truncated: bool,
}

impl View for ContentMatch {
    type V = MatchModel;

    open spec fn view(&self) -> MatchModel {
        MatchModel {
            file: self.file@,
            encoding: self.encoding@,
            line: self.line as int,
            column: self.column as int,
            line_text: self.line_text@,
            truncated: self.truncated,
        }
    }
}

pub open spec fn match_models(list: Seq<ContentMatch>) -> Seq<MatchModel> {
    list.map_values(|m: ContentMatch| m@)
}

/// The match that begins at a byte of a line.
pub open spec fn match_at(
    file: Seq<char>,
    encoding: Seq<char>,
    number: int,
    line: Seq<char>,
    start: usize,
) -> MatchModel {
    MatchModel {
        file,
        encoding,
        line: number,
        column: start + 1,
        line_text: passages::cut(line, MAX_LINE_TEXT_BYTES as int),
        truncated: text::byte_len(line) > MAX_LINE_TEXT_BYTES,
    }
}

/// The matches in a line, in order.
pub open spec fn line_matches(
    file: Seq<char>,
    encoding: Seq<char>,
    number: int,
    line: Seq<char>,
    query: QueryModel,
) -> Seq<MatchModel> {
    starts_in(query, line).map_values(
        |start: usize| match_at(file, encoding, number, line, start),
    )
}

/// The matches in some lines, in order.
pub open spec fn lines_matches(
    file: Seq<char>,
    encoding: Seq<char>,
    lines: Seq<Seq<char>>,
    query: QueryModel,
) -> Seq<MatchModel>
    decreases lines.len(),
{
    if lines.len() == 0 {
        Seq::empty()
    } else {
        lines_matches(file, encoding, lines.drop_last(), query) + line_matches(
            file,
            encoding,
            lines.len() as int,
            lines.last(),
            query,
        )
    }
}

/// The first `max` of some matches.
pub open spec fn capped(list: Seq<MatchModel>, max: int) -> Seq<MatchModel> {
    if list.len() <= max {
        list
    } else {
        list.take(max)
    }
}

/// A search through what files hold, under way.
pub struct ContentSearch {
    pub root: PathText,
    pub file_matcher: regex::Regex,
    pub query: Query,
    pub max_matches: usize,
    pub max_file_bytes: usize,
    pub result: ContentSearchResult,
}

/// What a search does with an entry.
#[derive(Debug, Clone, Copy, PartialEq, Eq, Structural)]
pub enum SearchAction {
    Pass,
    Read,
}

/// Why what files hold cannot be searched, if it cannot.
pub open spec fn content_search_fault(
    worker: FsWorker,
    authorization: Authorization,
    target: PathText,
    seen: Resolution,
    query: Seq<char>,
    regex: bool,
    file_glob: Seq<char>,
    max_matches: usize,
    max_file_bytes: usize,
) -> Option<FsFault> {
    files::first(
        files::auto_fault(authorization, "filesystem.search_content"@, target.text@),
        files::first(
            if query.len() == 0 || max_matches == 0 || max_matches > MAX_CONTENT_MATCHES
                || max_file_bytes == 0 || max_file_bytes > MAX_SEARCH_FILE_BYTES {
                Some(FsFault::InvalidParameters)
            } else {
                None
            },
            files::first(
                files::existing_fault(worker, target, seen),
                files::first(
                    glob_fault(file_glob),
                    if regex && !is_pattern(query) {
                        Some(FsFault::InvalidPattern)
                    } else {
                        None
                    },
                ),
            ),
        ),
    )
}

impl FsWorker {
    /// Begins to search through what files hold.
    pub fn search_content(
        &self,
        authorization: &Authorization,
        target: &PathText,
        seen: &Resolution,
        query: &str,
        regex: bool,
        file_glob: &str,
        max_matches: usize,
        max_file_bytes: usize,
    ) -> (r: Result<(Walk, ContentSearch), FsError>)
        ensures
            ({
                let fault = content_search_fault(
                    *self,
                    *authorization,
                    *target,
                    *seen,
                    query@,
                    regex,
                    file_glob@,
                    max_matches,
                    max_file_bytes,
                );
                &&& r is Err == fault is Some
                &&& r is Err ==> r->Err_0@ == fault->0
            }),
            r is Ok ==> ({
                let (walk, search) = r->Ok_0;
                let root = seen.canonical->Ok_0.path@;
                &&& files::starts_at(walk, root, MAX_LIST_DEPTH)
                &&& search.root@ == root
                &&& pattern_text(search.file_matcher) == glob_pattern(file_glob@)
                &&& search.query@ == (if regex {
                    QueryModel::Pattern(query@)
                } else {
                    QueryModel::Literal(query@)
                })
                &&& search.max_matches == max_matches
                &&& search.max_file_bytes == max_file_bytes
                &&& search.result.matches@.len() == 0
                &&& search.result.skipped_binary_files == 0
                &&& search.result.skipped_size_limit_files == 0
                &&& search.going()
            }),
    {
        if let Err(error) = files::ensure_auto_action(
            authorization,
            "filesystem.search_content",
            target,
        ) {
            return Err(error);
        }
        let chars = text::chars_of(query);
        if chars.len() == 0 || max_matches == 0 || max_matches > MAX_CONTENT_MATCHES
            || max_file_bytes == 0 || max_file_bytes > MAX_SEARCH_FILE_BYTES {
            return Err(FsError::InvalidParameters);
        }
        let root = match self.resolve_existing(target, seen) {
            Err(error) => {
                return Err(error);
            },
            Ok(root) => root,
        };
        let file_matcher = match glob_regex(file_glob) {
            Err(error) => {
                return Err(error);
            },
            Ok(matcher) => matcher,
        };
        let query = if regex {
            match compile(query) {
                None => {
                    return Err(FsError::InvalidPattern);
                },
                Some(re) => Query::Pattern(re),
            }
        } else {
            Query::Literal(chars)
        };
        Ok(
            (
                Walk::new(root, MAX_LIST_DEPTH),
                ContentSearch {
                    root: paths::copy_path(root),
                    file_matcher,
                    query,
                    max_matches,
                    max_file_bytes,
                    result: ContentSearchResult {
                        matches: Vec::new(),
                        skipped_binary_files: 0,
                        skipped_size_limit_files: 0,
                    },
                },
            ),
        )
    }
}

/// One more, as far as the type goes.
pub open spec fn one_more(n: usize) -> usize {
    if n < usize::MAX {
        (n + 1) as usize
    } else {
        n
    }
}

fn counted(n: usize) -> (r: usize)
    ensures
        r == one_more(n),
{
    if n < usize::MAX {
        n + 1
    } else {
        n
    }
}

impl ContentSearch {
    /// The search looks for something, and has not found all it may.
    pub open spec fn going(&self) -> bool {
        self.result.matches@.len() < self.max_matches && (self.query@ matches QueryModel::Literal(
            chars,
        ) ==> chars.len() > 0)
    }

    /// Takes in an entry, unless the search has taken all the time it was given. Says
    /// whether its file is to be read. The times are in nanoseconds.
    pub fn visit(
        &mut self,
        path: &PathText,
        metadata: &Metadata,
        elapsed: u128,
        timeout: u128,
    ) -> (r: Result<SearchAction, FsError>)
        ensures
            r is Err == (elapsed >= timeout),
            r is Err ==> r->Err_0 == FsError::SearchTimeout && *final(self) == *old(self),
            r is Ok ==> ({
                let wanted = is_wanted(
                    pattern_text(old(self).file_matcher),
                    path@,
                    old(self).root@,
                    metadata.kind,
                );
                let too_large = metadata.size > old(self).max_file_bytes;
                &&& r->Ok_0 == (if wanted && !too_large {
                    SearchAction::Read
                } else {
                    SearchAction::Pass
                })
                &&& *final(self) == (ContentSearch { result: final(self).result, ..*old(self) })
                &&& final(self).result == (ContentSearchResult {
                    skipped_size_limit_files: if wanted && too_large {
                        one_more(old(self).result.skipped_size_limit_files)
                    } else {
                        old(self).result.skipped_size_limit_files
                    },
                    ..old(self).result
                })
            }),
    {
        if elapsed >= timeout {
            return Err(FsError::SearchTimeout);
        }
        if metadata.kind != FileKind::File {
            return Ok(SearchAction::Pass);
        }
        let name = relative_text(path, &self.root);
        if !is_match(&self.file_matcher, name.as_str()) {
            return Ok(SearchAction::Pass);
        }
        if metadata.size > self.max_file_bytes as u64 {
            self.result.skipped_size_limit_files = counted(self.result.skipped_size_limit_files);
            return Ok(SearchAction::Pass);
        }
        Ok(SearchAction::Read)
    }

    /// Searches what a file holds. Says whether the walk goes on.
    pub fn search(&mut self, path: &PathText, bytes: &[u8]) -> (go_on: bool)
        requires
            old(self).going(),
        ensures
            *final(self) == (ContentSearch { result: final(self).result, ..*old(self) }),
            encodings::decoded(bytes@) is None ==> go_on && final(self).result == (
            ContentSearchResult {
                skipped_binary_files: one_more(old(self).result.skipped_binary_files),
                ..old(self).result
            }),
            encodings::decoded(bytes@) is Some ==> ({
                let decoded = encodings::decoded(bytes@)->0;
                let all = match_models(old(self).result.matches@) + lines_matches(
                    path.text@,
                    encodings::encoding_name(decoded.encoding),
                    passages::lines_of(decoded.text),
                    old(self).query@,
                );
                &&& final(self).result == (ContentSearchResult {
                    matches: final(self).result.matches,
                    ..old(self).result
                })
                &&& match_models(final(self).result.matches@) == capped(
                    all,
                    old(self).max_matches as int,
                )
                &&& go_on == (all.len() < old(self).max_matches)
            }),
            go_on ==> final(self).going(),
    {
        let decoded = match encodings::decode_search_text(bytes) {
            None => {
                self.result.skipped_binary_files = counted(self.result.skipped_binary_files);
                return true;
            },
            Some(decoded) => decoded,
        };
        let lines = passages::lines(decoded.text.as_slice());
        let ghost rows = text::rows(lines@);
        let ghost file = path.text@;
        let ghost name = encodings::encoding_name(decoded.encoding);
        let ghost before = match_models(self.result.matches@);
        let ghost query = self.query@;
        let ghost max = self.max_matches as int;
        proof {
            assert(rows.len() == lines@.len());
            assert(rows.take(0) =~= Seq::empty());
            assert(before + Seq::<MatchModel>::empty() =~= before);
            assert(before.len() == self.result.matches@.len());
        }
        let count: usize = lines.len();
        let mut i: usize = 0;
        while i < count
            invariant
                i <= count,
                count == lines@.len(),
                rows == text::rows(lines@),
                rows.len() == lines@.len(),
                file == path.text@,
                name == encodings::encoding_name(decoded.encoding),
                query == old(self).query@,
                max == old(self).max_matches,
                before == match_models(old(self).result.matches@),
                encodings::decoded(bytes@) is Some,
                rows == passages::lines_of(encodings::decoded(bytes@)->0.text),
                decoded.encoding == encodings::decoded(bytes@)->0.encoding,
                *self == (ContentSearch { result: self.result, ..*old(self) }),
                self.result == (ContentSearchResult {
                    matches: self.result.matches,
                    ..old(self).result
                }),
                self.going(),
                match_models(self.result.matches@) == before + lines_matches(
                    file,
                    name,
                    rows.take(i as int),
                    query,
                ),
            decreases lines@.len() - i,
        {
            let ghost line = rows[i as int];
            let ghost so_far = match_models(self.result.matches@);
            let ghost here = line_matches(file, name, i + 1, line, query);
            proof {
                assert(line == lines@[i as int]@);
                assert(rows.take(i + 1).drop_last() =~= rows.take(i as int));
                assert(rows.take(i + 1).last() == line);
                assert(so_far + here =~= before + lines_matches(
                    file,
                    name,
                    rows.take(i + 1),
                    query,
                ));
            }
            let columns = columns_in(&self.query, &lines[i]);
            let mut k: usize = 0;
            proof {
                assert(here.len() == columns@.len());
                assert(so_far + here.take(0) =~= so_far);
            }
            while k < columns.len()
                invariant
                    k <= columns@.len(),
                    i < count,
                    count == lines@.len(),
                    rows == text::rows(lines@),
                    rows.len() == lines@.len(),
                    line == rows[i as int],
                    line == lines@[i as int]@,
                    file == path.text@,
                    name == encodings::encoding_name(decoded.encoding),
                    max == old(self).max_matches,
                    query == old(self).query@,
                    before == match_models(old(self).result.matches@),
                    encodings::decoded(bytes@) is Some,
                    rows == passages::lines_of(encodings::decoded(bytes@)->0.text),
                    decoded.encoding == encodings::decoded(bytes@)->0.encoding,
                    columns@ == starts_in(query, line),
                    forall|j: int| 0 <= j < columns@.len() ==> (#[trigger] columns@[j]) < usize::MAX,
                    here == line_matches(file, name, i + 1, line, query),
                    here.len() == columns@.len(),
                    *self == (ContentSearch { result: self.result, ..*old(self) }),
                    self.result == (ContentSearchResult {
                        matches: self.result.matches,
                        ..old(self).result
                    }),
                    self.going(),
                    so_far + here == before + lines_matches(
                        file,
                        name,
                        rows.take(i + 1),
                        query,
                    ),
                    match_models(self.result.matches@) == so_far + here.take(k as int),
                decreases columns@.len() - k,
            {
                let (line_text, truncated) = passages::truncate(
                    lines[i].as_slice(),
                    MAX_LINE_TEXT_BYTES,
                );
                let ghost list = self.result.matches@;
                let column: usize = columns[k];
                let found = ContentMatch {
                    file: path.text.clone(),
                    encoding: text::copied(decoded.encoding.name()),
                    line: i + 1,
                    column: column + 1,
                    line_text: text::string_of(line_text.as_slice()),
                    truncated,
                };
                self.result.matches.push(found);
                proof {
                    assert(found@ =~= match_at(file, name, i + 1, line, column));
                    assert(here[k as int] == found@);
                    assert(match_models(self.result.matches@) =~= match_models(list).push(found@));
                    assert(here.take(k + 1) =~= here.take(k as int).push(here[k as int]));
                    assert(match_models(self.result.matches@) =~= so_far + here.take(k + 1));
                    assert(match_models(self.result.matches@).len() == self.result.matches@.len());
                }
                if self.result.matches.len() >= self.max_matches {
                    proof {
                        lemma_capped(file, name, rows, query, before, i + 1, so_far + here.take(
                            k + 1,
                        ), max);
                    }
                    return false;
                }
                k = k + 1;
            }
            proof {
                assert(here.take(k as int) =~= here);
            }
            i = i + 1;
        }
        proof {
            assert(rows.take(i as int) =~= rows);
            assert(match_models(self.result.matches@).len() == self.result.matches@.len());
        }
        true
    }
}

/// Matches that are the first of those up to a line, and as many as allowed, are
/// the first of all.
proof fn lemma_capped(
    file: Seq<char>,
    name: Seq<char>,
    rows: Seq<Seq<char>>,
    query: QueryModel,
    before: Seq<MatchModel>,
    i: int,
    list: Seq<MatchModel>,
    max: int,
)
    requires
        0 <= i <= rows.len(),
        list.is_prefix_of(before + lines_matches(file, name, rows.take(i), query)),
        list.len() == max,
    ensures
        capped(before + lines_matches(file, name, rows, query), max) == list,
        (before + lines_matches(file, name, rows, query)).len() >= max,
    decreases rows.len() - i,
{
    if i < rows.len() {
        let next = rows.take(i + 1);
        assert(next.drop_last() =~= rows.take(i));
        let a = before + lines_matches(file, name, rows.take(i), query);
        let b = before + lines_matches(file, name, next, query);
        assert(b =~= a + line_matches(file, name, i + 1, next.last(), query));
        assert(b.subrange(0, list.len() as int) =~= a.subrange(0, list.len() as int));
        lemma_capped(file, name, rows, query, before, i + 1, list, max);
    } else {
        let all = before + lines_matches(file, name, rows, query);
        assert(rows.take(i) =~= rows);
        assert(all.subrange(0, list.len() as int) =~= all.take(max));
        if all.len() <= max {
            assert(all.take(max) =~= all);
        }
    }
}

fn columns_in(query: &Query, line: &Vec<char>) -> (r: Vec<usize>)
    requires
        query@ matches QueryModel::Literal(chars) ==> chars.len() > 0,
    ensures
        r@ == starts_in(query@, line@),
        forall|i: int| 0 <= i < r@.len() ==> (#[trigger] r@[i]) < usize::MAX,
{
    let whole = text::string_of(line.as_slice());
    let bytes: usize = text::text_bytes(whole.as_str());
    match query {
        Query::Pattern(re) => find_starts(re, whole.as_str()),
        Query::Literal(chars) => {
            let places = passages::occurrences(line.as_slice(), chars.as_slice());
            let ghost wanted = starts_in(query@, line@);
            let mut r: Vec<usize> = Vec::new();
            let mut i: usize = 0;
            proof {
                assert(passages::indices(places@).len() == places@.len());
                assert(wanted.len() == places@.len());
            }
            while i < places.len()
                invariant
                    i <= places@.len(),
                    chars@.len() > 0,
                    query@ == QueryModel::Literal(chars@),
                    bytes == text::byte_len(line@),
                    wanted == starts_in(query@, line@),
                    wanted.len() == places@.len(),
                    passages::indices(places@) == passages::matches_from(line@, chars@, 0),
                    forall|k: int|
                        0 <= k < places@.len() ==> passages::stands_at(
                            line@,
                            chars@,
                            (#[trigger] places@[k]) as int,
                        ),
                    r@ == wanted.take(i as int),
                    forall|k: int| 0 <= k < r@.len() ==> (#[trigger] r@[k]) < usize::MAX,
                decreases places@.len() - i,
            {
                let place: usize = places[i];
                proof {
                    assert(passages::stands_at(line@, chars@, places@[i as int] as int));
                    passages::lemma_start_bytes(line@, place as int);
                    assert(line@.subrange(0, place as int) =~= line@.take(place as int));
                    assert(passages::indices(places@)[i as int] == place);
                    assert(wanted[i as int] == text::byte_len(line@.take(place as int)) as usize);
                }
                let start = passages::part(line.as_slice(), 0, place);
                let start_text = text::string_of(start.as_slice());
                r.push(text::text_bytes(start_text.as_str()));
                proof {
                    assert(r@ =~= wanted.take(i + 1));
                }
                i = i + 1;
            }
            proof {
                assert(r@ =~= wanted);
            }
            r
        },
    }
}

// ---------------------------------------------------------------------------
// Laws

/// A search begins at the target of the authorized request alone.
pub proof fn only_the_authorized_target_is_searched(
    worker: FsWorker,
    authorization: Authorization,
    target: PathText,
    seen: Resolution,
)
    ensures
        forall|pattern: Seq<char>, max: usize| #[trigger]
            file_search_fault(worker, authorization, target, seen, pattern, max) is None
                ==> target.text@ == authorization.request.envelope.target@,
        forall|
            query: Seq<char>,
            regex: bool,
            file_glob: Seq<char>,
            max_matches: usize,
            max_file_bytes: usize,
        | #[trigger]
            content_search_fault(
                worker,
                authorization,
                target,
                seen,
                query,
                regex,
                file_glob,
                max_matches,
                max_file_bytes,
            ) is None ==> target.text@ == authorization.request.envelope.target@,
{
}

/// A search never holds more matches than it may, and holds the first.
pub proof fn searches_never_exceed_their_limit(list: Seq<MatchModel>, max: nat)
    ensures
        capped(list, max as int).len() <= max,
        capped(list, max as int).is_prefix_of(list),
{
    let r = capped(list, max as int);
    assert(list.subrange(0, r.len() as int) =~= r);
}

/// The column of a match of a text lies within the line.
pub proof fn columns_lie_within_their_line(line: Seq<char>, chars: Seq<char>, i: int)
    requires
        chars.len() > 0,
        text::byte_len(line) <= usize::MAX,
        0 <= i < starts_in(QueryModel::Literal(chars), line).len(),
    ensures
        starts_in(QueryModel::Literal(chars), line)[i] + 1 <= text::byte_len(line),
{
    let places = passages::matches_from(line, chars, 0);
    lemma_places(line, chars, 0, i);
    passages::lemma_start_bytes(line, places[i]);
}

proof fn lemma_places(line: Seq<char>, chars: Seq<char>, from: int, i: int)
    requires
        chars.len() > 0,
        0 <= from,
        0 <= i < passages::matches_from(line, chars, from).len(),
    ensures
        passages::stands_at(line, chars, passages::matches_from(line, chars, from)[i]),
    decreases line.len() - from,
{
    if passages::stands_at(line, chars, from) {
        if i > 0 {
            lemma_places(line, chars, from + chars.len(), i - 1);
        }
    } else {
        lemma_places(line, chars, from + 1, i);
    }
}

/// `p` begins with `x`.
pub open spec fn begins(p: Seq<char>, x: Seq<char>) -> bool {
    p.len() >= x.len() && p.take(x.len() as int) == x
}

/// No character up to `k` is `c`.
pub open spec fn free_of(s: Seq<char>, k: int, c: char) -> bool {
    0 <= k <= s.len() && forall|j: int| 0 <= j < k ==> #[trigger] s[j] != c
}

/// What a pattern of file names matches: two stars and a slash stand for any directories or
/// none, two stars for any text, a star for any text without a slash, a question mark for
/// any character but a slash, and every other character for itself. Two stars do not reach
/// over the end of a line.
pub open spec fn names(glob: Seq<char>, s: Seq<char>) -> bool
    decreases glob.len(),
{
    if glob.len() == 0 {
        s.len() == 0
    } else if glob[0] == '*' && glob.len() > 1 && glob[1] == '*' {
        if glob.len() > 2 && glob[2] == '/' {
            names(glob.skip(3), s) || exists|k: int|
                #![trigger s.skip(k + 1)]
                free_of(s, k, '\n') && k < s.len() && s[k] == '/' && names(
                    glob.skip(3),
                    s.skip(k + 1),
                )
        } else {
            exists|k: int|
                #![trigger s.skip(k)]
                free_of(s, k, '\n') && names(glob.skip(2), s.skip(k))
        }
    } else if glob[0] == '*' {
        exists|k: int|
            #![trigger s.skip(k)]
            free_of(s, k, '/') && names(glob.skip(1), s.skip(k))
    } else if glob[0] == '?' {
        s.len() > 0 && s[0] != '/' && names(glob.skip(1), s.skip(1))
    } else {
        s.len() > 0 && s[0] == glob[0] && names(glob.skip(1), s.skip(1))
    }
}

/// What the rest of a pattern matches up to the end of the text, of the forms that stand
/// for a pattern of file names: the end, a group of directories that may be missing, any
/// text in a line, any text without a slash, one character but a slash, a character behind
/// a backslash, and a character without a meaning of its own. Other forms match nothing
/// here.
pub open spec fn means(pattern: Seq<char>, s: Seq<char>) -> bool
    decreases pattern.len(),
{
    if pattern.len() == 0 {
        false
    } else if pattern == "$"@ {
        s.len() == 0
    } else if pattern.len() >= 8 && begins(pattern, "(?:.*/)?"@) {
        means(pattern.skip(8), s) || exists|k: int|
            #![trigger s.skip(k + 1)]
            free_of(s, k, '\n') && k < s.len() && s[k] == '/' && means(
                pattern.skip(8),
                s.skip(k + 1),
            )
    } else if pattern.len() >= 2 && begins(pattern, ".*"@) {
        exists|k: int|
            #![trigger s.skip(k)]
            free_of(s, k, '\n') && means(pattern.skip(2), s.skip(k))
    } else if pattern.len() >= 5 && begins(pattern, "[^/]*"@) {
        exists|k: int|
            #![trigger s.skip(k)]
            free_of(s, k, '/') && means(pattern.skip(5), s.skip(k))
    } else if pattern.len() >= 4 && begins(pattern, "[^/]"@) {
        s.len() > 0 && s[0] != '/' && means(pattern.skip(4), s.skip(1))
    } else if pattern[0] == '\\' {
        pattern.len() > 1 && s.len() > 0 && s[0] == pattern[1] && means(pattern.skip(2), s.skip(1))
    } else {
        !is_meta(pattern[0]) && s.len() > 0 && s[0] == pattern[0] && means(
            pattern.skip(1),
            s.skip(1),
        )
    }
}

proof fn lemma_escaped_one(c: char)
    ensures
        escaped(seq![c]) == (if is_meta(c) {
            seq!['\\', c]
        } else {
            seq![c]
        }),
{
    let one = seq![c];
    assert(one.drop_last() =~= Seq::<char>::empty());
    assert(escaped(one.drop_last()) =~= Seq::<char>::empty());
    assert(escaped(one) =~= (if is_meta(c) {
        seq!['\\', c]
    } else {
        seq![c]
    }));
}

proof fn lemma_no_star_first(chars: Seq<char>, i: int)
    requires
        0 <= i <= chars.len(),
    ensures
        glob_from(chars, i).len() > 0,
        glob_from(chars, i)[0] != '*',
{
    reveal_strlit("$");
    reveal_strlit("(?:.*/)?");
    reveal_strlit(".*");
    reveal_strlit("[^/]*");
    reveal_strlit("[^/]");
    assert("$"@.len() == 1 && "(?:.*/)?"@.len() == 8 && ".*"@.len() == 2 && "[^/]*"@.len() == 5
        && "[^/]"@.len() == 4);
    if i < chars.len() {
        lemma_escaped_one(chars[i]);
    }
}

proof fn lemma_behind(x: Seq<char>, rest: Seq<char>)
    ensures
        begins(x + rest, x),
        (x + rest).skip(x.len() as int) == rest,
{
    assert((x + rest).take(x.len() as int) =~= x);
    assert((x + rest).skip(x.len() as int) =~= rest);
}

proof fn lemma_not_begins(p: Seq<char>, x: Seq<char>, k: int)
    requires
        0 <= k < x.len(),
        k < p.len() ==> p[k] != x[k],
    ensures
        !begins(p, x),
{
    if begins(p, x) {
        assert(p.take(x.len() as int)[k] == p[k]);
    }
}

proof fn lemma_glob_means(chars: Seq<char>, i: int, s: Seq<char>)
    requires
        0 <= i <= chars.len(),
    ensures
        means(glob_from(chars, i), s) == names(chars.skip(i), s),
    decreases chars.len() - i,
{
    reveal_strlit("$");
    reveal_strlit("(?:.*/)?");
    reveal_strlit(".*");
    reveal_strlit("[^/]*");
    reveal_strlit("[^/]");
    assert("$"@.len() == 1 && "(?:.*/)?"@.len() == 8 && ".*"@.len() == 2 && "[^/]*"@.len() == 5
        && "[^/]"@.len() == 4);
    let p = glob_from(chars, i);
    let g = chars.skip(i);
    if i < chars.len() {
        let c = chars[i];
        if c == '*' && i + 1 < chars.len() && chars[i + 1] == '*' {
            if i + 2 < chars.len() && chars[i + 2] == '/' {
                let rest = glob_from(chars, i + 3);
                lemma_behind("(?:.*/)?"@, rest);
                assert(p[0] == '(' && "$"@[0] == '$');
                assert(g.skip(3) =~= chars.skip(i + 3));
                lemma_glob_means(chars, i + 3, s);
                assert forall|k: int| 0 <= k < s.len() implies means(rest, #[trigger] s.skip(k + 1))
                    == names(g.skip(3), s.skip(k + 1)) by {
                    lemma_glob_means(chars, i + 3, s.skip(k + 1));
                }
            } else {
                let rest = glob_from(chars, i + 2);
                lemma_behind(".*"@, rest);
                assert(p[0] == '.' && "$"@[0] == '$');
                lemma_not_begins(p, "(?:.*/)?"@, 0);
                assert(g.skip(2) =~= chars.skip(i + 2));
                assert forall|k: int| 0 <= k <= s.len() implies means(rest, #[trigger] s.skip(k))
                    == names(g.skip(2), s.skip(k)) by {
                    lemma_glob_means(chars, i + 2, s.skip(k));
                }
            }
        } else if c == '*' {
            let rest = glob_from(chars, i + 1);
            lemma_behind("[^/]*"@, rest);
            assert(p[0] == '[' && "$"@[0] == '$');
            lemma_not_begins(p, "(?:.*/)?"@, 0);
            lemma_not_begins(p, ".*"@, 0);
            assert(g.skip(1) =~= chars.skip(i + 1));
            assert forall|k: int| 0 <= k <= s.len() implies means(rest, #[trigger] s.skip(k))
                == names(g.skip(1), s.skip(k)) by {
                lemma_glob_means(chars, i + 1, s.skip(k));
            }
        } else if c == '?' {
            let rest = glob_from(chars, i + 1);
            lemma_behind("[^/]"@, rest);
            lemma_no_star_first(chars, i + 1);
            assert(p[0] == '[' && "$"@[0] == '$');
            assert(p[4] == rest[0]);
            lemma_not_begins(p, "(?:.*/)?"@, 0);
            lemma_not_begins(p, ".*"@, 0);
            lemma_not_begins(p, "[^/]*"@, 4);
            assert(g.skip(1) =~= chars.skip(i + 1));
            if s.len() > 0 {
                lemma_glob_means(chars, i + 1, s.skip(1));
            }
        } else {
            let rest = glob_from(chars, i + 1);
            lemma_escaped_one(c);
            lemma_behind(escaped(seq![c]), rest);
            assert(p[0] == escaped(seq![c])[0]);
            assert("$"@[0] == '$');
            lemma_not_begins(p, "(?:.*/)?"@, 0);
            lemma_not_begins(p, ".*"@, 0);
            lemma_not_begins(p, "[^/]*"@, 0);
            lemma_not_begins(p, "[^/]"@, 0);
            if is_meta(c) {
                assert(p[1] == c);
            }
            assert(g.skip(1) =~= chars.skip(i + 1));
            if s.len() > 0 {
                lemma_glob_means(chars, i + 1, s.skip(1));
            }
        }
    }
}

/// The pattern that a pattern of file names becomes is held to the beginning and the end
/// of a path, and matches what the pattern of file names does, whichever slashes it is
/// written with.
pub proof fn name_patterns_match_what_they_name(pattern: Seq<char>, s: Seq<char>)
    ensures
        glob_pattern(pattern).len() > 0,
        glob_pattern(pattern)[0] == '^',
        means(glob_pattern(pattern).skip(1), s) == names(
            text::replace_char(pattern, '\\', '/'),
            s,
        ),
{
    reveal_strlit("^");
    let chars = text::replace_char(pattern, '\\', '/');
    lemma_behind("^"@, glob_from(chars, 0));
    assert(chars.skip(0) =~= chars);
    lemma_glob_means(chars, 0, s);
}

/// A star stays within one name: behind plain characters and before plain ones it stands
/// for a text without a slash, and for any such text.
pub proof fn a_star_stays_within_one_name(before: Seq<char>, after: Seq<char>, s: Seq<char>)
    requires
        forall|i: int| 0 <= i < before.len() ==> #[trigger] before[i] != '*' && before[i] != '?',
        forall|i: int| 0 <= i < after.len() ==> #[trigger] after[i] != '*' && after[i] != '?',
    ensures
        names(before.push('*') + after, s) == {
            &&& s.len() >= before.len() + after.len()
            &&& s.take(before.len() as int) == before
            &&& s.skip(s.len() - after.len()) == after
            &&& forall|i: int|
                before.len() <= i < s.len() - after.len() ==> #[trigger] s[i] != '/'
        },
    decreases before.len(),
{
    let glob = before.push('*') + after;
    if before.len() > 0 {
        assert(glob[0] == before[0]);
        if s.len() > 0 {
            let rest = before.drop_first();
            let t = s.skip(1);
            assert(glob.skip(1) =~= rest.push('*') + after);
            assert forall|i: int| 0 <= i < rest.len() implies #[trigger] rest[i] != '*' && rest[i]
                != '?' by {
                assert(rest[i] == before[i + 1]);
            }
            a_star_stays_within_one_name(rest, after, t);
            if s.len() >= before.len() {
                assert(s.take(before.len() as int).drop_first() =~= t.take(rest.len() as int));
                assert(s.take(before.len() as int) =~= seq![s[0]] + t.take(rest.len() as int));
                assert(before =~= seq![before[0]] + rest);
                if s.take(before.len() as int) == before {
                    assert(s.take(before.len() as int)[0] == before[0]);
                }
            }
            if s.len() >= before.len() + after.len() {
                assert(t.skip(t.len() - after.len()) =~= s.skip(s.len() - after.len()));
                if forall|i: int|
                    rest.len() <= i < t.len() - after.len() ==> #[trigger] t[i] != '/' {
                    assert forall|i: int|
                        before.len() <= i < s.len() - after.len() implies #[trigger] s[i]
                        != '/' by {
                        assert(t[i - 1] == s[i]);
                    }
                }
                if forall|i: int|
                    before.len() <= i < s.len() - after.len() ==> #[trigger] s[i] != '/' {
                    assert forall|i: int|
                        rest.len() <= i < t.len() - after.len() implies #[trigger] t[i]
                        != '/' by {
                        assert(t[i] == s[i + 1]);
                    }
                }
            }
        }
    } else {
        assert(before.push('*') + after =~= seq!['*'] + after);
        assert(glob.skip(1) =~= after);
        assert(s.take(0) =~= before);
        if after.len() > 0 {
            assert(glob[1] == after[0]);
        }
        assert forall|k: int| 0 <= k <= s.len() implies names(after, #[trigger] s.skip(k)) == (
        s.skip(k) == after) by {
            lemma_plain_names(after, s.skip(k));
        }
        if names(glob, s) {
            let k = choose|k: int|
                #![trigger s.skip(k)]
                free_of(s, k, '/') && names(glob.skip(1), s.skip(k));
            assert(s.skip(k) == after);
            assert(k == s.len() - after.len());
        }
        if s.len() >= after.len() && s.skip(s.len() - after.len()) == after && forall|i: int|
            0 <= i < s.len() - after.len() ==> #[trigger] s[i] != '/' {
            let k = s.len() - after.len();
            assert(free_of(s, k, '/'));
            assert(names(glob.skip(1), s.skip(k)));
        }
    }
}

/// A pattern without a star or a question mark names one text.
proof fn lemma_plain_names(glob: Seq<char>, s: Seq<char>)
    requires
        forall|i: int| 0 <= i < glob.len() ==> #[trigger] glob[i] != '*' && glob[i] != '?',
    ensures
        names(glob, s) == (s == glob),
    decreases glob.len(),
{
    if glob.len() > 0 {
        if s.len() > 0 {
            let rest = glob.skip(1);
            assert forall|i: int| 0 <= i < rest.len() implies #[trigger] rest[i] != '*' && rest[i]
                != '?' by {
                assert(rest[i] == glob[i + 1]);
            }
            lemma_plain_names(rest, s.skip(1));
            assert(glob =~= seq![glob[0]] + rest);
            assert(s =~= seq![s[0]] + s.skip(1));
        }
    } else if s.len() == 0 {
        assert(s =~= glob);
    }
}

/// Lines are numbered from one on, and searched in order: behind the matches of the lines
/// before stand those of the next, one for each place where what is searched for begins,
/// with the number of the line, the byte of the place counted from one on, and the line,
/// cut to 4096 bytes, and a note if it was cut.
pub proof fn matches_tell_line_and_column(
    file: Seq<char>,
    encoding: Seq<char>,
    lines: Seq<Seq<char>>,
    line: Seq<char>,
    query: QueryModel,
)
    ensures
        lines_matches(file, encoding, Seq::empty(), query).len() == 0,
        ({
            let before = lines_matches(file, encoding, lines, query);
            let all = lines_matches(file, encoding, lines.push(line), query);
            let starts = starts_in(query, line);
            &&& all.len() == before.len() + starts.len()
            &&& all.take(before.len() as int) == before
            &&& forall|k: int|
                0 <= k < starts.len() ==> {
                    let found = #[trigger] all[before.len() + k];
                    &&& found.file == file
                    &&& found.encoding == encoding
                    &&& found.line == lines.len() + 1
                    &&& found.column == starts[k] + 1
                    &&& found.line_text.is_prefix_of(line)
                    &&& text::byte_len(found.line_text) <= 4096
                    &&& found.truncated == (text::byte_len(line) > 4096)
                    &&& !found.truncated ==> found.line_text == line
                    &&& found.truncated ==> text::byte_len(
                        line.take(found.line_text.len() as int + 1),
                    ) > 4096
                }
        }),
{
    let before = lines_matches(file, encoding, lines, query);
    let all = lines_matches(file, encoding, lines.push(line), query);
    assert(lines.push(line).drop_last() =~= lines);
    assert(all.take(before.len() as int) =~= before);
    passages::truncated_texts_fit(line, 4096);
    let cut = passages::cut(line, 4096);
    assert forall|k: int| 0 <= k < starts_in(query, line).len() implies {
        let found = #[trigger] all[before.len() + k];
        &&& found.line_text == cut
        &&& found.truncated == (text::byte_len(line) > 4096)
        &&& found.file == file
        &&& found.encoding == encoding
        &&& found.line == lines.len() + 1
        &&& found.column == starts_in(query, line)[k] + 1
    } by {
        assert(all[before.len() + k] == line_matches(
            file,
            encoding,
            lines.len() as int + 1,
            line,
            query,
        )[k]);
    }
    if text::byte_len(line) > 4096 && cut.len() == line.len() {
        assert(cut =~= line);
    }
}

/// A text is found wherever it stands in a line, from the left and without overlaps, and
/// the place is told in bytes: as many as the characters before it take.
pub proof fn texts_are_found_where_they_stand(line: Seq<char>, chars: Seq<char>) -> (gaps: Seq<
    Seq<char>,
>)
    requires
        chars.len() > 0,
        text::byte_len(line) <= usize::MAX,
    ensures
        ({
            let starts = starts_in(QueryModel::Literal(chars), line);
            let places = passages::matches_from(line, chars, 0);
            &&& passages::interleaved(gaps, chars) == line
            &&& forall|g: int, k: int|
                0 <= g < gaps.len() - 1 && 0 <= k < gaps[g].len() ==> !#[trigger]
                    passages::stands_at(gaps[g] + chars, chars, k)
            &&& forall|k: int| !#[trigger] passages::stands_at(gaps.last(), chars, k)
            &&& starts.len() == gaps.len() - 1
            &&& starts.len() == places.len()
            &&& forall|k: int|
                0 <= k < starts.len() ==> #[trigger] starts[k] == text::byte_len(
                    line.take(places[k]),
                ) && passages::stands_at(line, chars, places[k])
        }),
{
    let gaps = passages::replacing_keeps_what_is_between(line, chars, chars, 0);
    assert(line.skip(0) =~= line);
    let places = passages::matches_from(line, chars, 0);
    assert forall|k: int| 0 <= k < places.len() implies text::byte_len(
        line.take(#[trigger] places[k]),
    ) <= usize::MAX by {
        assert(passages::stands_at(line, chars, places[k]));
        passages::lemma_start_bytes(line, places[k]);
    }
    gaps
}

/// Files can be searched for if and only if the request is authorized to, from one to ten
/// thousand are asked for, the directory is one that may be touched, and the pattern of
/// names is one: with something in it, no zero character, and a pattern that can be
/// compiled.
pub proof fn name_searches_begin_exactly_when_they_may(
    worker: FsWorker,
    authorization: Authorization,
    target: PathText,
    seen: Resolution,
    pattern: Seq<char>,
    max_results: usize,
)
    ensures
        file_search_fault(worker, authorization, target, seen, pattern, max_results) is None == {
            &&& files::auto_fault(authorization, "filesystem.search_files"@, target.text@) is None
            &&& 1 <= max_results <= 10_000
            &&& files::existing_fault(worker, target, seen) is None
            &&& pattern.len() > 0
            &&& forall|i: int| 0 <= i < pattern.len() ==> #[trigger] pattern[i] != '\0'
            &&& is_pattern(glob_pattern(pattern))
        },
{
    if !pattern.contains('\0') {
        assert forall|i: int| 0 <= i < pattern.len() implies #[trigger] pattern[i] != '\0' by {
            if pattern[i] == '\0' {
                assert(pattern.contains('\0'));
            }
        }
    }
}

/// What files hold can be searched if and only if the request is authorized to, there is
/// something to search for, from one to ten thousand matches are asked for and files of one
/// to 8388608 bytes, the directory is one that may be touched, and the patterns are
/// patterns.
pub proof fn content_searches_begin_exactly_when_they_may(
    worker: FsWorker,
    authorization: Authorization,
    target: PathText,
    seen: Resolution,
    query: Seq<char>,
    regex: bool,
    file_glob: Seq<char>,
    max_matches: usize,
    max_file_bytes: usize,
)
    ensures
        content_search_fault(
            worker,
            authorization,
            target,
            seen,
            query,
            regex,
            file_glob,
            max_matches,
            max_file_bytes,
        ) is None == {
            &&& files::auto_fault(authorization, "filesystem.search_content"@, target.text@) is None
            &&& query.len() > 0
            &&& 1 <= max_matches <= 10_000
            &&& 1 <= max_file_bytes <= 8_388_608
            &&& files::existing_fault(worker, target, seen) is None
            &&& glob_fault(file_glob) is None
            &&& regex ==> is_pattern(query)
        },
        1 <= max_matches <= 10_000 && 1 <= max_file_bytes <= 8_388_608 && query.len() > 0
            && files::auto_fault(authorization, "filesystem.search_content"@, target.text@) is None
            && files::existing_fault(worker, target, seen) is None ==> content_search_fault(
            worker,
            authorization,
            target,
            seen,
            query,
            regex,
            file_glob,
            max_matches,
            max_file_bytes,
        ) is None || content_search_fault(
            worker,
            authorization,
            target,
            seen,
            query,
            regex,
            file_glob,
            max_matches,
            max_file_bytes,
        ) == Some(FsFault::InvalidPattern),
{
}

/// A search that finds no more than it may keeps all of it; another keeps as much as it may.
pub proof fn searches_keep_the_first(list: Seq<MatchModel>, max: nat)
    ensures
        list.len() <= max ==> capped(list, max as int) == list,
        list.len() > max ==> capped(list, max as int) == list.take(max as int),
        forall|n: usize| n < usize::MAX ==> #[trigger] one_more(n) == n + 1,
        MAX_SEARCH_DURATION == 5 * 1_000_000_000,
{
}

/// A path below a root is told by the names from the root on, with slashes between them.
pub proof fn paths_are_told_from_the_root_on(
    path: PathModel,
    root: PathModel,
    below: Seq<Seq<char>>,
)
    requires
        path.parts == root.parts + below.map_values(|name: Seq<char>| PartModel::Normal(name)),
    ensures
        relative(path, root) == text::replace_char(text::join_with(below, "/"@), '\\', '/'),
{
    let rest = path.parts.skip(root.parts.len() as int);
    assert(rest =~= below.map_values(|name: Seq<char>| PartModel::Normal(name)));
    assert(part_texts(rest) =~= below);
    assert(path.parts.subrange(0, root.parts.len() as int) =~= root.parts);
}

/// A file is wanted, and nothing but a file, if what stands for the pattern of names matches
/// its path from the root on.
pub proof fn only_files_are_wanted(
    matcher: Seq<char>,
    path: PathModel,
    root: PathModel,
    kind: FileKind,
)
    ensures
        is_wanted(matcher, path, root, kind) == (kind is File && pattern_matches(
            matcher,
            relative(path, root),
        )),
{
}

/// A path that does not begin with the root is told whole; a part that stays is told by a dot,
/// one that leads up by two, and the root of a drive by nothing. There are no backslashes.
pub proof fn other_paths_are_told_whole(path: PathModel, root: PathModel, part: PartModel)
    ensures
        !root.parts.is_prefix_of(path.parts) ==> relative(path, root) == text::replace_char(
            path.text,
            '\\',
            '/',
        ),
        root.parts.is_prefix_of(path.parts) && path.parts.len() == root.parts.len() + 1
            && path.parts.last() == part ==> relative(path, root) == text::replace_char(
            match part {
                PartModel::Prefix(name) => name,
                PartModel::RootDir => Seq::empty(),
                PartModel::CurDir => seq!['.'],
                PartModel::ParentDir => seq!['.', '.'],
                PartModel::Normal(name) => name,
            },
            '\\',
            '/',
        ),
        !relative(path, root).contains('\\'),
{
    reveal_strlit(".");
    reveal_strlit("..");
    assert("."@ =~= seq!['.']);
    assert(".."@ =~= seq!['.', '.']);
    if root.parts.is_prefix_of(path.parts) && path.parts.len() == root.parts.len() + 1
        && path.parts.last() == part {
        let rest = path.parts.skip(root.parts.len() as int);
        assert(rest =~= seq![part]);
        assert(part_texts(rest) =~= seq![part_text(part)]);
    }
}

} // verus!
