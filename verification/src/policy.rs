//! The rules of a device: which actions run by themselves, which need an
//! approval, and which are denied.

use vstd::prelude::*;
use vstd::slice::slice_subrange;
use vstd::utf8::encode_utf8;

use crate::protocol::{
    find_parameter, text_list, ActionRequest, DecisionModel, ParameterValue, PolicyDecision,
    PolicyDecisionKind,
};
use crate::protocol;
use crate::text;

verus! {

#[derive(Debug, Clone, Copy, PartialEq, Eq, Structural)]
pub enum RuleDecision {
    Auto,
    Approval,
    Deny,
    ElevatedApproval,
}

/// What may be done below a directory.
#[derive(Debug, Clone)]
pub struct FilesystemRule {
    pub path: String,
    pub read: RuleDecision,
    pub write: RuleDecision,
}

#[derive(Debug, Clone, Copy)]
pub struct TerminalPolicy {
    pub default: RuleDecision,
    pub inline_eval: RuleDecision,
    pub project_tests: RuleDecision,
    pub destructive: RuleDecision,
    pub elevated: RuleDecision,
}

#[derive(Debug, Clone, Copy)]
pub struct ProcessPolicy {
    pub list: RuleDecision,
    pub inspect: RuleDecision,
    pub terminate: RuleDecision,
}

#[derive(Debug, Clone, Copy)]
pub struct BrowserPolicy {
    pub authenticated_session_use: RuleDecision,
    pub secret_extraction: RuleDecision,
    pub publish: RuleDecision,
    pub purchase: RuleDecision,
}

#[derive(Debug, Clone, Copy)]
pub struct DesktopPolicy {
    pub enabled: bool,
}

#[derive(Debug, Clone, Copy)]
pub struct NetworkPolicy {
    pub public_listener_fallback: RuleDecision,
}

#[derive(Debug, Clone, Copy)]
pub struct AuditPolicy {
    pub required: bool,
    pub fail_if_unwritable: bool,
}

#[derive(Debug, Clone)]
pub struct PolicyConfig {
    pub version: u32,
    pub policy_id: String,
    pub filesystem: Vec<FilesystemRule>,
    pub terminal: TerminalPolicy,
    pub process: ProcessPolicy,
    pub browser: BrowserPolicy,
    pub desktop: DesktopPolicy,
    pub network: NetworkPolicy,
    pub audit: AuditPolicy,
}

/// The inline-evaluation rule of a policy that does not give one.
pub fn default_inline_eval_decision() -> (rule: RuleDecision)
    ensures
        rule == RuleDecision::ElevatedApproval,
{
    RuleDecision::ElevatedApproval
}

/// `s` without the byte order marks it starts with.
pub open spec fn without_marks(s: Seq<char>) -> Seq<char>
    decreases s.len(),
{
    if s.len() > 0 && s[0] == '\u{feff}' {
        without_marks(s.drop_first())
    } else {
        s
    }
}

/// The text of a policy document without leading byte order marks.
pub fn policy_text(input: &str) -> (document: String)
    ensures
        document@ == without_marks(input@),
{
    let chars = text::chars_of(input);
    let mut i: usize = 0;
    proof {
        assert(chars@.skip(0) =~= chars@);
    }
    while i < chars.len() && chars[i] == '\u{feff}'
        invariant
            i <= chars@.len(),
            chars@ == input@,
            without_marks(chars@.skip(i as int)) == without_marks(input@),
        decreases chars@.len() - i,
    {
        proof {
            assert(chars@.skip(i as int).drop_first() =~= chars@.skip(i + 1));
        }
        i = i + 1;
    }
    let rest = slice_subrange(chars.as_slice(), i, chars.len());
    proof {
        assert(rest@ =~= chars@.skip(i as int));
    }
    text::string_of(rest)
}

#[derive(Debug, Clone, Copy, PartialEq, Eq, Structural)]
pub enum PolicyError {
    InvalidConfig,
    /// The document could not be read.
    Io,
    /// The document holds no configuration.
    Yaml,
}

/// A configuration that can be used: of the first version, with a policy id.
pub open spec fn valid_config(config: PolicyConfig) -> bool {
    config.version == 1 && !text::is_blank(config.policy_id@)
}

/// Decides requests by a configuration.
pub struct PolicyEngine {
    config: PolicyConfig,
}

// ---------------------------------------------------------------------------
// Paths

/// A path component that no rule looks behind.
pub open spec fn refused_part(part: Seq<char>) -> bool {
    part == "."@ || part == ".."@ || part.contains(':') || part.contains('\0')
}

/// The components of a path behind its drive, without empty ones.
pub open spec fn path_parts(path: Seq<char>) -> Seq<Seq<char>> {
    text::split_on(path.skip(3), '\\').filter(|part: Seq<char>| part.len() > 0)
}

pub open spec fn has_drive(path: Seq<char>) -> bool {
    path.len() >= 3 && text::is_ascii_letter(path[0]) && path[1] == ':' && path[2] == '\\'
}

pub open spec fn lowered(parts: Seq<Seq<char>>) -> Seq<Seq<char>> {
    parts.map_values(|part: Seq<char>| text::ascii_lower(part))
}

/// The one spelling of an absolute Windows path: a capital drive letter, single
/// backslashes, small letters. There is none for a path without a drive, and
/// none for one with a component that could lead elsewhere.
pub open spec fn windows_path(input: Seq<char>) -> Option<Seq<char>> {
    let path = text::replace_char(text::trim(input), '/', '\\');
    if !has_drive(path) || (exists|i: int|
        0 <= i < path_parts(path).len() && refused_part(#[trigger] path_parts(path)[i])) {
        None
    } else {
        Some(
            seq![text::upper(path[0]), ':', '\\'] + text::join_with(
                lowered(path_parts(path)),
                "\\"@,
            ),
        )
    }
}

/// `root` with a backslash at its end.
pub open spec fn directory_prefix(root: Seq<char>) -> Seq<char> {
    if root.len() > 0 && root.last() == '\\' {
        root
    } else {
        root.push('\\')
    }
}

/// `target` is `root` or below it, whatever the case of the letters.
pub open spec fn windows_within(target: Seq<char>, root: Seq<char>) -> bool {
    ||| text::ascii_lower(target) == text::ascii_lower(root)
    ||| text::ascii_lower(directory_prefix(root)).is_prefix_of(text::ascii_lower(target))
}

/// The rule speaks of `target`.
pub open spec fn covers(rule: FilesystemRule, target: Seq<char>) -> bool {
    windows_path(rule.path@) matches Some(root) && windows_within(target, root)
}

/// How specific a rule is: the length of its root.
pub open spec fn rule_depth(rule: FilesystemRule) -> nat {
    text::byte_len(windows_path(rule.path@)->0)
}

/// Rule `i` decides on `target`: it covers it, and so does no more specific
/// rule, and no equally specific one behind it.
pub open spec fn governs(rules: Seq<FilesystemRule>, i: int, target: Seq<char>) -> bool {
    &&& 0 <= i < rules.len()
    &&& covers(rules[i], target)
    &&& forall|j: int|
        0 <= j < rules.len() && covers(#[trigger] rules[j], target) ==> rule_depth(rules[j])
            < rule_depth(rules[i]) || (rule_depth(rules[j]) == rule_depth(rules[i]) && j <= i)
}

pub open spec fn filesystem_rule(rules: Seq<FilesystemRule>, target: Seq<char>, write: bool) -> RuleDecision {
    match windows_path(target) {
        None => RuleDecision::Deny,
        Some(path) => if exists|i: int| governs(rules, i, path) {
            let i = choose|i: int| governs(rules, i, path);
            if write {
                rules[i].write
            } else {
                rules[i].read
            }
        } else {
            RuleDecision::Deny
        },
    }
}

fn normalize_windows_path(input: &str) -> (path: Option<String>)
    ensures
        path is Some == windows_path(input@) is Some,
        path is Some ==> path->0@ == windows_path(input@)->0,
{
    let raw = text::chars_of(input);
    let path = text::replaced(text::trimmed(raw.as_slice()), '/', '\\');
    if path.len() < 3 || !text::ascii_letter(path[0]) || path[1] != ':' || path[2] != '\\' {
        return None;
    }
    let rest = slice_subrange(path.as_slice(), 3, path.len());
    proof {
        assert(rest@ =~= path@.skip(3));
    }
    let pieces = text::split(rest, '\\');
    let mut parts: Vec<Vec<char>> = Vec::new();
    let mut i: usize = 0;
    let ghost all = text::rows(pieces@);
    let ghost solid = |part: Seq<char>| part.len() > 0;
    proof {
        reveal(Seq::filter);
        assert(text::rows(parts@) =~= lowered(all.take(0).filter(solid)));
    }
    while i < pieces.len()
        invariant
            i <= pieces@.len(),
            all == text::rows(pieces@),
            all == text::split_on(path@.skip(3), '\\'),
            solid == (|part: Seq<char>| part.len() > 0),
            has_drive(path@),
            path@ == text::replace_char(text::trim(input@), '/', '\\'),
            text::rows(parts@) == lowered(all.take(i as int).filter(solid)),
            forall|k: int|
                0 <= k < all.take(i as int).filter(solid).len() ==> !refused_part(
                    #[trigger] all.take(i as int).filter(solid)[k],
                ),
        decreases pieces@.len() - i,
    {
        let ghost seen = all.take(i as int).filter(solid);
        let ghost next = all.take(i + 1).filter(solid);
        let piece = &pieces[i];
        proof {
            reveal(Seq::filter);
            assert(all.take(i + 1).drop_last() =~= all.take(i as int));
            assert(all.take(i + 1).last() == piece@);
            assert(next == (if piece@.len() > 0 {
                seen.push(piece@)
            } else {
                seen
            }));
        }
        if piece.len() > 0 {
            let part = piece.as_slice();
            if text::spells(part, ".") || text::spells(part, "..") || text::contains_char(part, ':')
                || text::contains_char(part, '\0') {
                proof {
                    assert(all[i as int] == piece@);
                    all.lemma_filter_contains(solid, i as int);
                    assert(path_parts(path@).contains(piece@));
                }
                return None;
            }
            let small = text::lower_chars(part);
            proof {
                assert(text::rows(parts@.push(small)) =~= text::rows(parts@).push(small@));
                assert(lowered(next) =~= lowered(seen).push(text::ascii_lower(piece@)));
            }
            parts.push(small);
        }
        i = i + 1;
    }
    proof {
        assert(all.take(all.len() as int) =~= all);
    }
    let suffix = text::join(&parts, "\\");
    let mut normal: Vec<char> = Vec::new();
    normal.push(text::to_upper(path[0]));
    normal.push(':');
    normal.push('\\');
    text::push_all(&mut normal, suffix.as_slice());
    proof {
        assert(normal@ =~= seq![text::upper(path@[0]), ':', '\\'] + suffix@);
    }
    Some(text::string_of(normal.as_slice()))
}

fn path_within(target: &str, root: &str) -> (r: bool)
    ensures
        r == windows_within(target@, root@),
{
    let t = text::chars_of(target);
    let mut prefix = text::chars_of(root);
    let small_target = text::lower_chars(t.as_slice());
    let small_root = text::lower_chars(prefix.as_slice());
    if text::same_chars(small_target.as_slice(), small_root.as_slice()) {
        return true;
    }
    if prefix.len() == 0 || prefix[prefix.len() - 1] != '\\' {
        prefix.push('\\');
    }
    let small_prefix = text::lower_chars(prefix.as_slice());
    text::is_prefix(small_prefix.as_slice(), small_target.as_slice())
}

/// Two rules cannot both decide on a target.
proof fn lemma_governs_once(rules: Seq<FilesystemRule>, i: int, j: int, target: Seq<char>)
    requires
        governs(rules, i, target),
        governs(rules, j, target),
    ensures
        i == j,
{
    assert(covers(rules[i], target) && covers(rules[j], target));
}

// ---------------------------------------------------------------------------
// Commands that carry their program in an argument

/// What stands behind the last slash of either kind.
pub open spec fn base_name(s: Seq<char>) -> Seq<char>
    decreases s.len(),
{
    if s.len() == 0 || s.last() == '\\' || s.last() == '/' {
        Seq::empty()
    } else {
        base_name(s.drop_last()).push(s.last())
    }
}

/// `s` without the ending of a Windows program.
pub open spec fn without_program_ending(s: Seq<char>) -> Seq<char> {
    if ".exe"@.is_suffix_of(s) {
        s.take(s.len() - ".exe"@.len())
    } else if ".cmd"@.is_suffix_of(s) {
        s.take(s.len() - ".cmd"@.len())
    } else if ".bat"@.is_suffix_of(s) {
        s.take(s.len() - ".bat"@.len())
    } else if ".com"@.is_suffix_of(s) {
        s.take(s.len() - ".com"@.len())
    } else {
        s
    }
}

/// The small-letter name of the program that a command starts.
pub open spec fn program_name(executable: Seq<char>) -> Seq<char> {
    without_program_ending(text::ascii_lower(base_name(executable)))
}

/// The programs that can take their program text as an argument.
#[derive(Debug, Clone, Copy, PartialEq, Eq, Structural)]
pub enum Interpreter {
    Python,
    Node,
    RubyPerl,
    Osascript,
    WindowsPowershell,
    Pwsh,
    Cmd,
    PosixShell,
    Wsl,
    Other,
}

pub open spec fn interpreter(name: Seq<char>) -> Interpreter {
    if name == "python"@ || name == "python3"@ || name == "py"@ || "python3."@.is_prefix_of(name) {
        Interpreter::Python
    } else if name == "node"@ {
        Interpreter::Node
    } else if name == "ruby"@ || name == "perl"@ {
        Interpreter::RubyPerl
    } else if name == "osascript"@ {
        Interpreter::Osascript
    } else if name == "powershell"@ {
        Interpreter::WindowsPowershell
    } else if name == "pwsh"@ {
        Interpreter::Pwsh
    } else if name == "cmd"@ {
        Interpreter::Cmd
    } else if name == "bash"@ || name == "sh"@ || name == "zsh"@ || name == "fish"@ || name
        == "dash"@ || name == "ksh"@ {
        Interpreter::PosixShell
    } else if name == "wsl"@ {
        Interpreter::Wsl
    } else {
        Interpreter::Other
    }
}

/// The switch `flag` stands in the argument: alone, as `--flag=value`, or as
/// `-f` with its value glued on.
pub open spec fn flag_given(argument: Seq<char>, flag: Seq<char>) -> bool {
    ||| argument == flag
    ||| "--"@.is_prefix_of(flag) && flag.push('=').is_prefix_of(argument)
    ||| flag.len() == 2 && flag[0] == '-' && flag.is_prefix_of(argument) && argument.len()
        > flag.len()
}

/// A switch of the interpreter that makes an argument its program.
pub open spec fn eval_flag(program: Interpreter, argument: Seq<char>) -> bool {
    match program {
        Interpreter::Python => flag_given(argument, "-c"@),
        Interpreter::Node => flag_given(argument, "-e"@) || flag_given(argument, "--eval"@)
            || flag_given(argument, "-p"@) || flag_given(argument, "--print"@),
        Interpreter::RubyPerl | Interpreter::Osascript => flag_given(argument, "-e"@),
        Interpreter::WindowsPowershell | Interpreter::Pwsh => flag_given(argument, "-command"@)
            || argument == "-c"@ || argument == "/c"@ || flag_given(argument, "-encodedcommand"@),
        Interpreter::Cmd => flag_given(argument, "/c"@) || flag_given(argument, "/k"@),
        Interpreter::PosixShell => flag_given(argument, "-c"@) || flag_given(
            argument,
            "--command"@,
        ),
        Interpreter::Wsl | Interpreter::Other => false,
    }
}

pub open spec fn takes_slashes(program: Interpreter) -> bool {
    program is WindowsPowershell || program is Pwsh || program is Cmd
}

/// An argument that still belongs to the interpreter itself.
pub open spec fn is_switch(program: Interpreter, argument: Seq<char>) -> bool {
    argument != "--"@ && argument.len() > 0 && (argument[0] == '-' || (takes_slashes(program)
        && argument[0] == '/'))
}

/// Some argument is an evaluation switch, and all before it are switches too.
pub open spec fn eval_flag_given(program: Interpreter, argv: Seq<Seq<char>>) -> bool {
    exists|k: int|
        1 <= k < argv.len() && text::ascii_lower(argv[k]) != "--"@ && eval_flag(
            program,
            text::ascii_lower(#[trigger] argv[k]),
        ) && forall|j: int|
            1 <= j < k ==> is_switch(program, text::ascii_lower(#[trigger] argv[j]))
}

pub open spec fn cmd_runs(argument: Seq<char>) -> bool {
    "/c"@.is_prefix_of(argument) || "/k"@.is_prefix_of(argument) || "/r"@.is_prefix_of(argument)
}

/// `cmd` gets a command line: after `/c`, `/k` or `/r`, glued on or not, with
/// nothing but switches before it.
pub open spec fn cmd_inline(argv: Seq<Seq<char>>) -> bool {
    exists|k: int|
        1 <= k < argv.len() && cmd_runs(text::ascii_lower(#[trigger] argv[k])) && forall|j: int|
            1 <= j < k ==> "/"@.is_prefix_of(text::ascii_lower(#[trigger] argv[j]))
}

/// The parameter name in a PowerShell switch, with what is glued on.
pub open spec fn powershell_switch(argument: Seq<char>) -> Option<Seq<char>> {
    if "--"@.is_prefix_of(argument) {
        Some(argument.skip("--"@.len() as int))
    } else if "-"@.is_prefix_of(argument) {
        Some(argument.skip("-"@.len() as int))
    } else if "/"@.is_prefix_of(argument) {
        Some(argument.skip("/"@.len() as int))
    } else {
        None
    }
}

/// A PowerShell parameter that runs what follows as a command.
pub open spec fn powershell_runs(name: Seq<char>) -> bool {
    ||| name == "e"@
    ||| name == "ec"@
    ||| name == "cwa"@
    ||| name.is_prefix_of("command"@)
    ||| name.len() >= 2 && name.is_prefix_of("encodedcommand"@)
    ||| name.len() >= 8 && name.is_prefix_of("commandwithargs"@)
}

/// A PowerShell parameter that runs a script file.
pub open spec fn powershell_file(name: Seq<char>) -> bool {
    name == "f"@ || (name.len() >= 2 && name.is_prefix_of("file"@))
}

/// A PowerShell parameter whose value is the next argument.
pub open spec fn powershell_valued(name: Seq<char>) -> bool {
    ||| name == "ep"@
    ||| name == "ex"@
    ||| name == "w"@
    ||| name == "v"@
    ||| name == "wd"@
    ||| name == "ea"@
    ||| name == "if"@
    ||| name == "of"@
    ||| name.len() >= 3 && {
        ||| name.is_prefix_of("executionpolicy"@)
        ||| name.is_prefix_of("windowstyle"@)
        ||| name.is_prefix_of("version"@)
        ||| name.is_prefix_of("workingdirectory"@)
        ||| name.is_prefix_of("configurationname"@)
        ||| name.is_prefix_of("configurationfile"@)
        ||| name.is_prefix_of("inputformat"@)
        ||| name.is_prefix_of("outputformat"@)
        ||| name.is_prefix_of("encodedarguments"@)
        ||| name.is_prefix_of("psconsolefile"@)
        ||| name.is_prefix_of("settingsfile"@)
        ||| name.is_prefix_of("custompipename"@)
    }
}

/// PowerShell, reading its arguments from number `i`, gets a command. The first
/// argument that is no switch decides by the edition: Windows PowerShell runs
/// it, the other takes it for a file.
pub open spec fn powershell_inline(argv: Seq<Seq<char>>, i: int, windows: bool) -> bool
    decreases argv.len() + 1 - i,
{
    if i < 0 || i >= argv.len() {
        false
    } else {
        match powershell_switch(text::ascii_lower(argv[i])) {
            None => windows,
            Some(switch) => {
                let colon = text::first_index(switch, ':');
                let name = switch.take(colon);
                if name.len() == 0 {
                    powershell_inline(argv, i + 1, windows)
                } else if powershell_runs(name) {
                    true
                } else if powershell_file(name) {
                    false
                } else if colon == switch.len() && powershell_valued(name) {
                    powershell_inline(argv, i + 2, windows)
                } else {
                    powershell_inline(argv, i + 1, windows)
                }
            },
        }
    }
}

/// The command evaluates program text given in an argument.
pub open spec fn inline_eval(argv: Seq<Seq<char>>) -> bool {
    argv.len() > 0 && {
        let program = interpreter(program_name(argv[0]));
        match program {
            Interpreter::Other => false,
            Interpreter::Wsl => argv.len() > 1,
            Interpreter::WindowsPowershell => powershell_inline(argv, 1, true) || eval_flag_given(
                program,
                argv,
            ),
            Interpreter::Pwsh => powershell_inline(argv, 1, false) || eval_flag_given(
                program,
                argv,
            ),
            Interpreter::Cmd => cmd_inline(argv) || eval_flag_given(program, argv),
            _ => eval_flag_given(program, argv),
        }
    }
}

proof fn lemma_base_name(s: Seq<char>, i: int)
    requires
        0 <= i <= s.len(),
        i == 0 || s[i - 1] == '\\' || s[i - 1] == '/',
        forall|k: int| i <= k < s.len() ==> s[k] != '\\' && s[k] != '/',
    ensures
        base_name(s) == s.skip(i),
    decreases s.len(),
{
    if i < s.len() {
        lemma_base_name(s.drop_last(), i);
        assert(s.drop_last().skip(i).push(s.last()) =~= s.skip(i));
    } else {
        assert(s.skip(i) =~= Seq::<char>::empty());
    }
}

fn without_ending(s: &[char], ending: &str) -> (r: Option<Vec<char>>)
    ensures
        r is Some == ending@.is_suffix_of(s@),
        r is Some ==> r->0@ == s@.take(s@.len() - ending@.len()),
{
    let tail = text::chars_of(ending);
    if text::is_suffix(tail.as_slice(), s) {
        let mut head: Vec<char> = Vec::new();
        text::push_all(&mut head, slice_subrange(s, 0, s.len() - tail.len()));
        proof {
            assert(head@ =~= s@.take(s@.len() - ending@.len()));
        }
        Some(head)
    } else {
        None
    }
}

fn program_of(executable: &str) -> (name: Vec<char>)
    ensures
        name@ == program_name(executable@),
{
    let chars = text::chars_of(executable);
    let mut i: usize = chars.len();
    while i > 0 && chars[i - 1] != '\\' && chars[i - 1] != '/'
        invariant
            i <= chars@.len(),
            forall|k: int| i <= k < chars@.len() ==> chars@[k] != '\\' && chars@[k] != '/',
        decreases i,
    {
        i = i - 1;
    }
    let base = slice_subrange(chars.as_slice(), i, chars.len());
    proof {
        lemma_base_name(chars@, i as int);
        assert(base@ =~= chars@.skip(i as int));
    }
    let name = text::lower_chars(base);
    if let Some(head) = without_ending(name.as_slice(), ".exe") {
        return head;
    }
    if let Some(head) = without_ending(name.as_slice(), ".cmd") {
        return head;
    }
    if let Some(head) = without_ending(name.as_slice(), ".bat") {
        return head;
    }
    if let Some(head) = without_ending(name.as_slice(), ".com") {
        return head;
    }
    name
}

fn interpreter_of(name: &[char]) -> (program: Interpreter)
    ensures
        program == interpreter(name@),
{
    if text::spells(name, "python") || text::spells(name, "python3") || text::spells(name, "py")
        || text::starts_with(name, "python3.") {
        Interpreter::Python
    } else if text::spells(name, "node") {
        Interpreter::Node
    } else if text::spells(name, "ruby") || text::spells(name, "perl") {
        Interpreter::RubyPerl
    } else if text::spells(name, "osascript") {
        Interpreter::Osascript
    } else if text::spells(name, "powershell") {
        Interpreter::WindowsPowershell
    } else if text::spells(name, "pwsh") {
        Interpreter::Pwsh
    } else if text::spells(name, "cmd") {
        Interpreter::Cmd
    } else if text::spells(name, "bash") || text::spells(name, "sh") || text::spells(name, "zsh")
        || text::spells(name, "fish") || text::spells(name, "dash") || text::spells(name, "ksh") {
        Interpreter::PosixShell
    } else if text::spells(name, "wsl") {
        Interpreter::Wsl
    } else {
        Interpreter::Other
    }
}

fn has_flag(argument: &[char], flag: &str) -> (r: bool)
    ensures
        r == flag_given(argument@, flag@),
{
    let mut f = text::chars_of(flag);
    if text::same_chars(argument, f.as_slice()) {
        return true;
    }
    if f.len() == 2 && f[0] == '-' && text::is_prefix(f.as_slice(), argument) && argument.len()
        > f.len() {
        return true;
    }
    if text::starts_with(f.as_slice(), "--") {
        f.push('=');
        text::is_prefix(f.as_slice(), argument)
    } else {
        false
    }
}

fn has_eval_flag(program: Interpreter, argument: &[char]) -> (r: bool)
    ensures
        r == eval_flag(program, argument@),
{
    match program {
        Interpreter::Python => has_flag(argument, "-c"),
        Interpreter::Node => has_flag(argument, "-e") || has_flag(argument, "--eval") || has_flag(
            argument,
            "-p",
        ) || has_flag(argument, "--print"),
        Interpreter::RubyPerl | Interpreter::Osascript => has_flag(argument, "-e"),
        Interpreter::WindowsPowershell | Interpreter::Pwsh => has_flag(argument, "-command")
            || text::spells(argument, "-c") || text::spells(argument, "/c") || has_flag(
            argument,
            "-encodedcommand",
        ),
        Interpreter::Cmd => has_flag(argument, "/c") || has_flag(argument, "/k"),
        Interpreter::PosixShell => has_flag(argument, "-c") || has_flag(argument, "--command"),
        Interpreter::Wsl | Interpreter::Other => false,
    }
}

fn switch_of(program: Interpreter, argument: &[char]) -> (r: bool)
    ensures
        r == is_switch(program, argument@),
{
    let slashes = match program {
        Interpreter::WindowsPowershell | Interpreter::Pwsh | Interpreter::Cmd => true,
        _ => false,
    };
    !text::spells(argument, "--") && argument.len() > 0 && (argument[0] == '-' || (slashes
        && argument[0] == '/'))
}

fn finds_eval_flag(program: Interpreter, argv: &Vec<String>) -> (r: bool)
    ensures
        r == eval_flag_given(program, text::texts(argv@)),
{
    let ghost all = text::texts(argv@);
    let mut i: usize = 1;
    while i < argv.len()
        invariant
            1 <= i,
            argv@.len() >= 1 ==> i <= argv@.len(),
            all == text::texts(argv@),
            forall|j: int|
                1 <= j < i && j < all.len() ==> is_switch(
                    program,
                    text::ascii_lower(#[trigger] all[j]),
                ) && !eval_flag(program, text::ascii_lower(all[j])),
        decreases argv@.len() - i,
    {
        let raw = text::chars_of(argv[i].as_str());
        let argument = text::lower_chars(raw.as_slice());
        assert(argument@ == text::ascii_lower(all[i as int]));
        if text::spells(argument.as_slice(), "--") {
            assert(!eval_flag_given(program, all));
            return false;
        }
        if has_eval_flag(program, argument.as_slice()) {
            return true;
        }
        if !switch_of(program, argument.as_slice()) {
            assert(!eval_flag_given(program, all));
            return false;
        }
        i = i + 1;
    }
    false
}

fn cmd_is_inline_eval(argv: &Vec<String>) -> (r: bool)
    ensures
        r == cmd_inline(text::texts(argv@)),
{
    let ghost all = text::texts(argv@);
    let mut i: usize = 1;
    while i < argv.len()
        invariant
            1 <= i,
            argv@.len() >= 1 ==> i <= argv@.len(),
            all == text::texts(argv@),
            forall|j: int|
                1 <= j < i && j < all.len() ==> "/"@.is_prefix_of(
                    text::ascii_lower(#[trigger] all[j]),
                ) && !cmd_runs(text::ascii_lower(all[j])),
        decreases argv@.len() - i,
    {
        let raw = text::chars_of(argv[i].as_str());
        let argument = text::lower_chars(raw.as_slice());
        assert(argument@ == text::ascii_lower(all[i as int]));
        if text::starts_with(argument.as_slice(), "/c") || text::starts_with(
            argument.as_slice(),
            "/k",
        ) || text::starts_with(argument.as_slice(), "/r") {
            return true;
        }
        if !text::starts_with(argument.as_slice(), "/") {
            assert(!cmd_inline(all));
            return false;
        }
        i = i + 1;
    }
    false
}

fn after<'a>(argument: &'a [char], mark: &str) -> (r: Option<&'a [char]>)
    ensures
        r is Some == mark@.is_prefix_of(argument@),
        r is Some ==> r->0@ == argument@.skip(mark@.len() as int),
{
    let m = text::chars_of(mark);
    if text::is_prefix(m.as_slice(), argument) {
        let rest = slice_subrange(argument, m.len(), argument.len());
        proof {
            assert(rest@ =~= argument@.skip(mark@.len() as int));
        }
        Some(rest)
    } else {
        None
    }
}

fn begins(name: &[char], full: &str) -> (r: bool)
    ensures
        r == name@.is_prefix_of(full@),
{
    let f = text::chars_of(full);
    text::is_prefix(name, f.as_slice())
}

fn takes_value(name: &[char]) -> (r: bool)
    ensures
        r == powershell_valued(name@),
{
    if text::spells(name, "ep") || text::spells(name, "ex") || text::spells(name, "w")
        || text::spells(name, "v") || text::spells(name, "wd") || text::spells(name, "ea")
        || text::spells(name, "if") || text::spells(name, "of") {
        return true;
    }
    name.len() >= 3 && (begins(name, "executionpolicy") || begins(name, "windowstyle") || begins(
        name,
        "version",
    ) || begins(name, "workingdirectory") || begins(name, "configurationname") || begins(
        name,
        "configurationfile",
    ) || begins(name, "inputformat") || begins(name, "outputformat") || begins(
        name,
        "encodedarguments",
    ) || begins(name, "psconsolefile") || begins(name, "settingsfile") || begins(
        name,
        "custompipename",
    ))
}

/// PowerShell takes `-`, `--` or `/` before a parameter name, any unambiguous
/// prefix of that name and a few aliases.
fn powershell_is_inline_eval(argv: &Vec<String>, windows_powershell: bool) -> (r: bool)
    ensures
        r == powershell_inline(text::texts(argv@), 1, windows_powershell),
{
    let ghost all = text::texts(argv@);
    let mut i: usize = 1;
    while i < argv.len()
        invariant
            1 <= i,
            all == text::texts(argv@),
            powershell_inline(all, 1, windows_powershell) == powershell_inline(
                all,
                i as int,
                windows_powershell,
            ),
        decreases argv@.len() - i,
    {
        let raw = text::chars_of(argv[i].as_str());
        let argument = text::lower_chars(raw.as_slice());
        assert(argument@ == text::ascii_lower(all[i as int]));
        let found = match after(argument.as_slice(), "--") {
            Some(rest) => Some(rest),
            None => match after(argument.as_slice(), "-") {
                Some(rest) => Some(rest),
                None => after(argument.as_slice(), "/"),
            },
        };
        let switch = match found {
            None => {
                return windows_powershell;
            },
            Some(switch) => switch,
        };
        let colon: usize = text::find_char(switch, ':');
        let name = slice_subrange(switch, 0, colon);
        proof {
            assert(name@ =~= switch@.take(colon as int));
        }
        if name.len() == 0 {
            i = i + 1;
            continue;
        }
        if text::spells(name, "e") || text::spells(name, "ec") || text::spells(name, "cwa")
            || begins(name, "command") || (name.len() >= 2 && begins(name, "encodedcommand")) || (
        name.len() >= 8 && begins(name, "commandwithargs")) {
            return true;
        }
        if text::spells(name, "f") || (name.len() >= 2 && begins(name, "file")) {
            return false;
        }
        if colon == switch.len() && takes_value(name) {
            if i + 1 >= argv.len() {
                assert(!powershell_inline(all, i + 2, windows_powershell));
                return false;
            }
            i = i + 2;
        } else {
            i = i + 1;
        }
    }
    false
}

fn command_is_inline_eval(argv: &Vec<String>) -> (r: bool)
    ensures
        r == inline_eval(text::texts(argv@)),
{
    if argv.len() == 0 {
        return false;
    }
    let name = program_of(argv[0].as_str());
    let program = interpreter_of(name.as_slice());
    assert(text::texts(argv@)[0] == argv@[0]@);
    match program {
        Interpreter::Other => false,
        Interpreter::Wsl => argv.len() > 1,
        Interpreter::WindowsPowershell => powershell_is_inline_eval(argv, true)
            || finds_eval_flag(program, argv),
        Interpreter::Pwsh => powershell_is_inline_eval(argv, false) || finds_eval_flag(
            program,
            argv,
        ),
        Interpreter::Cmd => cmd_is_inline_eval(argv) || finds_eval_flag(program, argv),
        _ => finds_eval_flag(program, argv),
    }
}

// ---------------------------------------------------------------------------
// The engine

/// The arguments of a terminal request: a list of texts that is not empty.
pub open spec fn requested_argv(request: ActionRequest) -> Option<Seq<Seq<char>>> {
    match protocol::parameter(request.envelope.parameters@, "argv"@) {
        Some(ParameterValue::List(values)) => if values@.len() > 0 && protocol::all_texts(
            values@,
        ) {
            Some(protocol::value_texts(values@))
        } else {
            None
        },
        _ => None,
    }
}

pub open spec fn terminal_rule(config: PolicyConfig, request: ActionRequest) -> (
    RuleDecision,
    Seq<char>,
) {
    match requested_argv(request) {
        None => (RuleDecision::Deny, "terminal_argv_required"@),
        Some(argv) => if inline_eval(argv) {
            (config.terminal.inline_eval, "terminal_inline_eval"@)
        } else {
            (config.terminal.default, "terminal_default"@)
        },
    }
}

/// Actions that read below the target.
pub open spec fn reads_files(action: Seq<char>) -> bool {
    action == "filesystem.read"@ || action == "filesystem.list"@ || action
        == "filesystem.search_files"@ || action == "filesystem.search_content"@ || action
        == "filesystem.info"@
}

/// The rule for a request, and the name of the reason.
pub open spec fn rule_for(config: PolicyConfig, request: ActionRequest) -> (
    RuleDecision,
    Seq<char>,
) {
    let action = request.envelope.action@;
    let target = request.envelope.target@;
    if reads_files(action) {
        (filesystem_rule(config.filesystem@, target, false), "filesystem_rule"@)
    } else if action == "filesystem.write"@ {
        (filesystem_rule(config.filesystem@, target, true), "filesystem_rule"@)
    } else if action == "terminal.exec"@ {
        terminal_rule(config, request)
    } else if action == "terminal.poll"@ {
        (RuleDecision::Auto, "terminal_poll"@)
    } else if action == "terminal.cancel"@ {
        (RuleDecision::Auto, "terminal_cancel"@)
    } else if action == "terminal.project_test"@ {
        (config.terminal.project_tests, "terminal_project_test"@)
    } else if action == "terminal.destructive"@ {
        (config.terminal.destructive, "terminal_destructive"@)
    } else if action == "terminal.elevated"@ {
        (config.terminal.elevated, "terminal_elevated"@)
    } else if action == "process.list"@ {
        (config.process.list, "process_list"@)
    } else if action == "process.inspect"@ {
        (config.process.inspect, "process_inspect"@)
    } else if action == "process.terminate"@ {
        (config.process.terminate, "process_terminate"@)
    } else if action == "git.status"@ || action == "git.diff"@ {
        (filesystem_rule(config.filesystem@, target, false), "git_read"@)
    } else if action == "browser.session.use"@ {
        (config.browser.authenticated_session_use, "browser_session"@)
    } else if action == "browser.secret.extract"@ {
        (config.browser.secret_extraction, "browser_secret"@)
    } else if action == "browser.publish"@ {
        (config.browser.publish, "browser_publish"@)
    } else if action == "browser.purchase"@ {
        (config.browser.purchase, "browser_purchase"@)
    } else if action == "network.public_listener"@ {
        (config.network.public_listener_fallback, "public_listener"@)
    } else if "desktop."@.is_prefix_of(action) {
        if config.desktop.enabled {
            (RuleDecision::Approval, "desktop_approval"@)
        } else {
            (RuleDecision::Deny, "desktop_disabled"@)
        }
    } else {
        (RuleDecision::Deny, "unknown_action"@)
    }
}

/// A rule as a decision; an elevated approval is an approval that asks for a
/// capability.
pub open spec fn decision_kind(rule: RuleDecision) -> PolicyDecisionKind {
    match rule {
        RuleDecision::Auto => PolicyDecisionKind::Auto,
        RuleDecision::Approval | RuleDecision::ElevatedApproval => PolicyDecisionKind::Approval,
        RuleDecision::Deny => PolicyDecisionKind::Deny,
    }
}

/// What the configuration says of a request.
pub open spec fn decision_on(config: PolicyConfig, request: ActionRequest) -> DecisionModel {
    let (rule, reason) = rule_for(config, request);
    DecisionModel {
        request_id: request.envelope.request_id@,
        kind: decision_kind(rule),
        policy_id: config.policy_id@,
        reason_code: reason,
        required_capability: if rule is ElevatedApproval {
            Some("elevated"@)
        } else {
            None
        },
        envelope_digest: request.envelope_digest,
    }
}

/// `decision` is what the configuration says of `request`.
pub open spec fn decides(
    config: PolicyConfig,
    request: ActionRequest,
    decision: PolicyDecision,
) -> bool {
    decision@ == decision_on(config, request)
}

impl PolicyEngine {
    /// The configuration that the engine decides by.
    pub closed spec fn policy(&self) -> PolicyConfig {
        self.config
    }

    #[verifier::type_invariant]
    spec fn well_formed(self) -> bool {
        valid_config(self.config)
    }

    /// An engine for a configuration that can be used.
    pub fn from_config(config: PolicyConfig) -> (engine: Result<PolicyEngine, PolicyError>)
        ensures
            engine is Ok == valid_config(config),
            engine is Ok ==> engine->Ok_0.policy() == config,
            engine is Err ==> engine->Err_0 == PolicyError::InvalidConfig,
    {
        if config.version != 1 || text::blank(config.policy_id.as_str()) {
            return Err(PolicyError::InvalidConfig);
        }
        Ok(PolicyEngine { config })
    }

    pub fn config(&self) -> (config: &PolicyConfig)
        ensures
            *config == self.policy(),
            valid_config(*config),
    {
        proof {
            use_type_invariant(self);
        }
        &self.config
    }

    /// What the policy says of a request.
    pub fn evaluate(&self, request: &ActionRequest) -> (decision: PolicyDecision)
        ensures
            decides(self.policy(), *request, decision),
    {
        let chars = text::chars_of(request.envelope.action.as_str());
        let action = chars.as_slice();
        let target = request.envelope.target.as_str();
        let (rule, reason): (RuleDecision, &'static str) = if text::spells(
            action,
            "filesystem.read",
        ) || text::spells(action, "filesystem.list") || text::spells(
            action,
            "filesystem.search_files",
        ) || text::spells(action, "filesystem.search_content") || text::spells(
            action,
            "filesystem.info",
        ) {
            (self.filesystem_decision(target, false), "filesystem_rule")
        } else if text::spells(action, "filesystem.write") {
            (self.filesystem_decision(target, true), "filesystem_rule")
        } else if text::spells(action, "terminal.exec") {
            self.terminal_exec_decision(request)
        } else if text::spells(action, "terminal.poll") {
            (RuleDecision::Auto, "terminal_poll")
        } else if text::spells(action, "terminal.cancel") {
            (RuleDecision::Auto, "terminal_cancel")
        } else if text::spells(action, "terminal.project_test") {
            (self.config.terminal.project_tests, "terminal_project_test")
        } else if text::spells(action, "terminal.destructive") {
            (self.config.terminal.destructive, "terminal_destructive")
        } else if text::spells(action, "terminal.elevated") {
            (self.config.terminal.elevated, "terminal_elevated")
        } else if text::spells(action, "process.list") {
            (self.config.process.list, "process_list")
        } else if text::spells(action, "process.inspect") {
            (self.config.process.inspect, "process_inspect")
        } else if text::spells(action, "process.terminate") {
            (self.config.process.terminate, "process_terminate")
        } else if text::spells(action, "git.status") || text::spells(action, "git.diff") {
            (self.filesystem_decision(target, false), "git_read")
        } else if text::spells(action, "browser.session.use") {
            (self.config.browser.authenticated_session_use, "browser_session")
        } else if text::spells(action, "browser.secret.extract") {
            (self.config.browser.secret_extraction, "browser_secret")
        } else if text::spells(action, "browser.publish") {
            (self.config.browser.publish, "browser_publish")
        } else if text::spells(action, "browser.purchase") {
            (self.config.browser.purchase, "browser_purchase")
        } else if text::spells(action, "network.public_listener") {
            (self.config.network.public_listener_fallback, "public_listener")
        } else if text::starts_with(action, "desktop.") {
            if self.config.desktop.enabled {
                (RuleDecision::Approval, "desktop_approval")
            } else {
                (RuleDecision::Deny, "desktop_disabled")
            }
        } else {
            (RuleDecision::Deny, "unknown_action")
        };
        self.decision(request, rule, reason)
    }

    fn terminal_exec_decision(&self, request: &ActionRequest) -> (decided: (
        RuleDecision,
        &'static str,
    ))
        ensures
            (decided.0, decided.1@) == terminal_rule(self.policy(), *request),
    {
        match terminal_argv(request) {
            None => (RuleDecision::Deny, "terminal_argv_required"),
            Some(argv) => if command_is_inline_eval(&argv) {
                (self.config.terminal.inline_eval, "terminal_inline_eval")
            } else {
                (self.config.terminal.default, "terminal_default")
            },
        }
    }

    fn filesystem_decision(&self, target: &str, write: bool) -> (rule: RuleDecision)
        ensures
            rule == filesystem_rule(self.policy().filesystem@, target@, write),
    {
        let path = match normalize_windows_path(target) {
            None => {
                return RuleDecision::Deny;
            },
            Some(path) => path,
        };
        let ghost rules = self.config.filesystem@;
        let mut best: Option<usize> = None;
        let mut depth: usize = 0;
        let mut i: usize = 0;
        while i < self.config.filesystem.len()
            invariant
                rules == self.config.filesystem@,
                i <= rules.len(),
                best is None ==> forall|j: int|
                    0 <= j < i ==> !covers(#[trigger] rules[j], path@),
                best is Some ==> {
                    &&& best->0 < i
                    &&& covers(rules[best->0 as int], path@)
                    &&& depth == rule_depth(rules[best->0 as int])
                    &&& forall|j: int|
                        0 <= j < i && covers(#[trigger] rules[j], path@) ==> rule_depth(rules[j])
                            < depth || (rule_depth(rules[j]) == depth && j <= best->0)
                },
            decreases rules.len() - i,
        {
            let rule = &self.config.filesystem[i];
            if let Some(root) = normalize_windows_path(rule.path.as_str()) {
                if path_within(path.as_str(), root.as_str()) {
                    let this_depth: usize = text::text_bytes(root.as_str());
                    if best.is_none() || this_depth >= depth {
                        best = Some(i);
                        depth = this_depth;
                    }
                }
            }
            i = i + 1;
        }
        match best {
            None => {
                proof {
                    assert(forall|k: int| !governs(rules, k, path@));
                }
                RuleDecision::Deny
            },
            Some(k) => {
                proof {
                    assert(governs(rules, k as int, path@));
                    let chosen = choose|c: int| governs(rules, c, path@);
                    lemma_governs_once(rules, chosen, k as int, path@);
                }
                if write {
                    self.config.filesystem[k].write
                } else {
                    self.config.filesystem[k].read
                }
            },
        }
    }

    fn decision(&self, request: &ActionRequest, rule: RuleDecision, reason: &str) -> (decision:
        PolicyDecision)
        ensures
            decision.request_id@ == request.envelope.request_id@,
            decision.kind == decision_kind(rule),
            decision.policy_id@ == self.policy().policy_id@,
            decision.reason_code@ == reason@,
            decision.required_capability is Some == rule is ElevatedApproval,
            rule is ElevatedApproval ==> decision.required_capability->0@ == "elevated"@,
            decision.envelope_digest == request.envelope_digest,
    {
        let (kind, required_capability) = match rule {
            RuleDecision::Auto => (PolicyDecisionKind::Auto, None),
            RuleDecision::Approval => (PolicyDecisionKind::Approval, None),
            RuleDecision::Deny => (PolicyDecisionKind::Deny, None),
            RuleDecision::ElevatedApproval => (
                PolicyDecisionKind::Approval,
                Some(text::copied("elevated")),
            ),
        };
        PolicyDecision {
            request_id: request.envelope.request_id.clone(),
            kind,
            policy_id: self.config.policy_id.clone(),
            reason_code: text::copied(reason),
            required_capability,
            envelope_digest: request.envelope_digest,
        }
    }
}

fn terminal_argv(request: &ActionRequest) -> (argv: Option<Vec<String>>)
    ensures
        argv is Some == requested_argv(*request) is Some,
        argv is Some ==> text::texts(argv->0@) == requested_argv(*request)->0,
{
    match find_parameter(&request.envelope.parameters, "argv") {
        Some(ParameterValue::List(values)) => {
            if values.len() == 0 {
                None
            } else {
                text_list(values)
            }
        },
        _ => None,
    }
}

// ---------------------------------------------------------------------------
// Laws

/// The actions that the policy has a rule of its own for.
pub open spec fn known_action(action: Seq<char>) -> bool {
    ||| reads_files(action)
    ||| action == "filesystem.write"@
    ||| action == "terminal.exec"@
    ||| action == "terminal.poll"@
    ||| action == "terminal.cancel"@
    ||| action == "terminal.project_test"@
    ||| action == "terminal.destructive"@
    ||| action == "terminal.elevated"@
    ||| action == "process.list"@
    ||| action == "process.inspect"@
    ||| action == "process.terminate"@
    ||| action == "git.status"@
    ||| action == "git.diff"@
    ||| action == "browser.session.use"@
    ||| action == "browser.secret.extract"@
    ||| action == "browser.publish"@
    ||| action == "browser.purchase"@
    ||| action == "network.public_listener"@
    ||| "desktop."@.is_prefix_of(action)
}

/// An action that the policy does not know is denied, whatever the
/// configuration.
pub proof fn unknown_actions_are_denied(
    config: PolicyConfig,
    request: ActionRequest,
    decision: PolicyDecision,
)
    requires
        decides(config, request, decision),
        !known_action(request.envelope.action@),
    ensures
        decision.kind == PolicyDecisionKind::Deny,
        decision.reason_code@ == "unknown_action"@,
{
}

/// The actions that are decided by the filesystem rules.
pub open spec fn decided_by_path(action: Seq<char>) -> bool {
    reads_files(action) || action == "filesystem.write"@ || action == "git.status"@ || action
        == "git.diff"@
}

/// A target that has no plain spelling, such as one with a `..` in it, is
/// denied.
pub proof fn odd_targets_are_denied(
    config: PolicyConfig,
    request: ActionRequest,
    decision: PolicyDecision,
)
    requires
        decides(config, request, decision),
        decided_by_path(request.envelope.action@),
        windows_path(request.envelope.target@) is None,
    ensures
        decision.kind == PolicyDecisionKind::Deny,
{
    reveal_strlit("filesystem.write");
    reveal_strlit("terminal.exec");
    reveal_strlit("terminal.poll");
    reveal_strlit("terminal.cancel");
    reveal_strlit("terminal.project_test");
    reveal_strlit("terminal.destructive");
    reveal_strlit("terminal.elevated");
    reveal_strlit("process.list");
    reveal_strlit("process.inspect");
    reveal_strlit("process.terminate");
    reveal_strlit("git.status");
    reveal_strlit("git.diff");
    assert("git.status"@[0] == 'g' && "git.diff"@[0] == 'g');
    assert("terminal.exec"@[0] == 't' && "terminal.poll"@[0] == 't' && "terminal.cancel"@[0] == 't'
        && "terminal.project_test"@[0] == 't' && "terminal.destructive"@[0] == 't'
        && "terminal.elevated"@[0] == 't');
    assert("process.list"@[0] == 'p' && "process.inspect"@[0] == 'p' && "process.terminate"@[0]
        == 'p');
    assert("filesystem.write"@[0] == 'f');
}

/// A path with a component `..` has no plain spelling.
pub proof fn traversal_has_no_plain_path(input: Seq<char>, i: int)
    requires
        ({
            let path = text::replace_char(text::trim(input), '/', '\\');
            0 <= i < path_parts(path).len() && path_parts(path)[i] == ".."@
        }),
    ensures
        windows_path(input) is None,
{
    let path = text::replace_char(text::trim(input), '/', '\\');
    assert(refused_part(path_parts(path)[i]));
}

/// A target that no rule covers is denied, to read and to write.
pub proof fn uncovered_targets_are_denied(rules: Seq<FilesystemRule>, target: Seq<char>, write: bool)
    requires
        windows_path(target) matches Some(path) ==> forall|i: int|
            0 <= i < rules.len() ==> !covers(#[trigger] rules[i], path),
    ensures
        filesystem_rule(rules, target, write) == RuleDecision::Deny,
{
}

/// The rule that decides on a target covers it, and no other rule that covers
/// it has a longer root.
pub proof fn deepest_rule_decides(rules: Seq<FilesystemRule>, target: Seq<char>, i: int, write: bool)
    requires
        windows_path(target) is Some,
        governs(rules, i, windows_path(target)->0),
    ensures
        filesystem_rule(rules, target, write) == (if write {
            rules[i].write
        } else {
            rules[i].read
        }),
{
    let path = windows_path(target)->0;
    let chosen = choose|c: int| governs(rules, c, path);
    lemma_governs_once(rules, chosen, i, path);
}

/// Where the policy asks for an elevated approval of inline evaluation, every
/// command that carries its program in an argument needs one.
pub proof fn inline_evaluation_needs_elevation(
    config: PolicyConfig,
    request: ActionRequest,
    decision: PolicyDecision,
)
    requires
        decides(config, request, decision),
        request.envelope.action@ == "terminal.exec"@,
        requested_argv(request) is Some,
        inline_eval(requested_argv(request)->0),
        config.terminal.inline_eval == RuleDecision::ElevatedApproval,
    ensures
        decision.kind == PolicyDecisionKind::Approval,
        decision.required_capability is Some,
        decision.required_capability->0@ == "elevated"@,
{
    reveal_strlit("filesystem.read");
    reveal_strlit("filesystem.list");
    reveal_strlit("filesystem.search_files");
    reveal_strlit("filesystem.search_content");
    reveal_strlit("filesystem.info");
    reveal_strlit("filesystem.write");
    reveal_strlit("terminal.exec");
    assert("terminal.exec"@[0] == 't');
    assert("filesystem.read"@[0] == 'f' && "filesystem.list"@[0] == 'f'
        && "filesystem.search_files"@[0] == 'f' && "filesystem.search_content"@[0] == 'f'
        && "filesystem.info"@[0] == 'f' && "filesystem.write"@[0] == 'f');
}

/// The decision says what a rule does, for a reason: `Auto` lets the request run,
/// `Deny` denies it, and both kinds of approval ask for one, the elevated for the
/// capability `elevated`.
pub open spec fn says(decision: PolicyDecision, rule: RuleDecision, reason: Seq<char>) -> bool {
    &&& decision.kind is Auto <==> rule is Auto
    &&& decision.kind is Deny <==> rule is Deny
    &&& decision.kind is Approval <==> rule is Approval || rule is ElevatedApproval
    &&& decision.required_capability is Some <==> rule is ElevatedApproval
    &&& (decision.required_capability matches Some(capability) ==> capability@ == "elevated"@)
    &&& decision.reason_code@ == reason
}

/// Every action is decided on by the entry of the configuration that is its own, and
/// the decision names the request, its digest and the policy.
pub proof fn every_action_has_its_own_entry(
    config: PolicyConfig,
    request: ActionRequest,
    decision: PolicyDecision,
)
    requires
        decides(config, request, decision),
    ensures
        decision.request_id@ == request.envelope.request_id@,
        decision.envelope_digest == request.envelope_digest,
        decision.policy_id@ == config.policy_id@,
        request.envelope.action@ == "filesystem.read"@ ==> says(
            decision,
            filesystem_rule(config.filesystem@, request.envelope.target@, false),
            "filesystem_rule"@,
        ),
        request.envelope.action@ == "filesystem.list"@ ==> says(
            decision,
            filesystem_rule(config.filesystem@, request.envelope.target@, false),
            "filesystem_rule"@,
        ),
        request.envelope.action@ == "filesystem.search_files"@ ==> says(
            decision,
            filesystem_rule(config.filesystem@, request.envelope.target@, false),
            "filesystem_rule"@,
        ),
        request.envelope.action@ == "filesystem.search_content"@ ==> says(
            decision,
            filesystem_rule(config.filesystem@, request.envelope.target@, false),
            "filesystem_rule"@,
        ),
        request.envelope.action@ == "filesystem.info"@ ==> says(
            decision,
            filesystem_rule(config.filesystem@, request.envelope.target@, false),
            "filesystem_rule"@,
        ),
        request.envelope.action@ == "filesystem.write"@ ==> says(
            decision,
            filesystem_rule(config.filesystem@, request.envelope.target@, true),
            "filesystem_rule"@,
        ),
        request.envelope.action@ == "git.status"@ ==> says(
            decision,
            filesystem_rule(config.filesystem@, request.envelope.target@, false),
            "git_read"@,
        ),
        request.envelope.action@ == "git.diff"@ ==> says(
            decision,
            filesystem_rule(config.filesystem@, request.envelope.target@, false),
            "git_read"@,
        ),
        request.envelope.action@ == "terminal.poll"@ ==> says(
            decision,
            RuleDecision::Auto,
            "terminal_poll"@,
        ),
        request.envelope.action@ == "terminal.cancel"@ ==> says(
            decision,
            RuleDecision::Auto,
            "terminal_cancel"@,
        ),
        request.envelope.action@ == "terminal.project_test"@ ==> says(
            decision,
            config.terminal.project_tests,
            "terminal_project_test"@,
        ),
        request.envelope.action@ == "terminal.destructive"@ ==> says(
            decision,
            config.terminal.destructive,
            "terminal_destructive"@,
        ),
        request.envelope.action@ == "terminal.elevated"@ ==> says(
            decision,
            config.terminal.elevated,
            "terminal_elevated"@,
        ),
        request.envelope.action@ == "process.list"@ ==> says(
            decision,
            config.process.list,
            "process_list"@,
        ),
        request.envelope.action@ == "process.inspect"@ ==> says(
            decision,
            config.process.inspect,
            "process_inspect"@,
        ),
        request.envelope.action@ == "process.terminate"@ ==> says(
            decision,
            config.process.terminate,
            "process_terminate"@,
        ),
        request.envelope.action@ == "browser.session.use"@ ==> says(
            decision,
            config.browser.authenticated_session_use,
            "browser_session"@,
        ),
        request.envelope.action@ == "browser.secret.extract"@ ==> says(
            decision,
            config.browser.secret_extraction,
            "browser_secret"@,
        ),
        request.envelope.action@ == "browser.publish"@ ==> says(
            decision,
            config.browser.publish,
            "browser_publish"@,
        ),
        request.envelope.action@ == "browser.purchase"@ ==> says(
            decision,
            config.browser.purchase,
            "browser_purchase"@,
        ),
        request.envelope.action@ == "network.public_listener"@ ==> says(
            decision,
            config.network.public_listener_fallback,
            "public_listener"@,
        ),
        request.envelope.action@ == "terminal.exec"@ ==> match requested_argv(request) {
            None => says(decision, RuleDecision::Deny, "terminal_argv_required"@),
            Some(argv) => {
                &&& inline_eval(argv) ==> says(
                    decision,
                    config.terminal.inline_eval,
                    "terminal_inline_eval"@,
                )
                &&& !inline_eval(argv) ==> says(
                    decision,
                    config.terminal.default,
                    "terminal_default"@,
                )
            },
        },
        "desktop."@.is_prefix_of(request.envelope.action@) && config.desktop.enabled ==> says(
            decision,
            RuleDecision::Approval,
            "desktop_approval"@,
        ),
        "desktop."@.is_prefix_of(request.envelope.action@) && !config.desktop.enabled ==> says(
            decision,
            RuleDecision::Deny,
            "desktop_disabled"@,
        ),
{
    reveal_strlit("filesystem.read");
    reveal_strlit("filesystem.list");
    reveal_strlit("filesystem.search_files");
    reveal_strlit("filesystem.search_content");
    reveal_strlit("filesystem.info");
    reveal_strlit("filesystem.write");
    reveal_strlit("terminal.exec");
    reveal_strlit("terminal.poll");
    reveal_strlit("terminal.cancel");
    reveal_strlit("terminal.project_test");
    reveal_strlit("terminal.destructive");
    reveal_strlit("terminal.elevated");
    reveal_strlit("process.list");
    reveal_strlit("process.inspect");
    reveal_strlit("process.terminate");
    reveal_strlit("git.status");
    reveal_strlit("git.diff");
    reveal_strlit("browser.session.use");
    reveal_strlit("browser.secret.extract");
    reveal_strlit("browser.publish");
    reveal_strlit("browser.purchase");
    reveal_strlit("network.public_listener");
    assert("filesystem.read"@.len() == 15);
    assert("filesystem.list"@.len() == 15);
    assert("filesystem.search_files"@.len() == 23);
    assert("filesystem.search_content"@.len() == 25);
    assert("filesystem.info"@.len() == 15);
    assert("filesystem.write"@.len() == 16);
    assert("terminal.exec"@.len() == 13);
    assert("terminal.poll"@.len() == 13);
    assert("terminal.cancel"@.len() == 15);
    assert("terminal.project_test"@.len() == 21);
    assert("terminal.destructive"@.len() == 20);
    assert("terminal.elevated"@.len() == 17);
    assert("process.list"@.len() == 12);
    assert("process.inspect"@.len() == 15);
    assert("process.terminate"@.len() == 17);
    assert("git.status"@.len() == 10);
    assert("git.diff"@.len() == 8);
    assert("browser.session.use"@.len() == 19);
    assert("browser.secret.extract"@.len() == 22);
    assert("browser.publish"@.len() == 15);
    assert("browser.purchase"@.len() == 16);
    assert("network.public_listener"@.len() == 23);
    assert("filesystem.read"@[11] == 'r' && "filesystem.list"@[11] == 'l');
    assert("filesystem.read"@[11] == 'r' && "filesystem.info"@[11] == 'i');
    assert("filesystem.read"@[0] == 'f' && "terminal.cancel"@[0] == 't');
    assert("filesystem.read"@[0] == 'f' && "process.inspect"@[0] == 'p');
    assert("filesystem.read"@[0] == 'f' && "browser.publish"@[0] == 'b');
    assert("filesystem.list"@[11] == 'l' && "filesystem.info"@[11] == 'i');
    assert("filesystem.list"@[0] == 'f' && "terminal.cancel"@[0] == 't');
    assert("filesystem.list"@[0] == 'f' && "process.inspect"@[0] == 'p');
    assert("filesystem.list"@[0] == 'f' && "browser.publish"@[0] == 'b');
    assert("filesystem.info"@[0] == 'f' && "terminal.cancel"@[0] == 't');
    assert("filesystem.info"@[0] == 'f' && "process.inspect"@[0] == 'p');
    assert("filesystem.info"@[0] == 'f' && "browser.publish"@[0] == 'b');
    assert("terminal.cancel"@[0] == 't' && "process.inspect"@[0] == 'p');
    assert("terminal.cancel"@[0] == 't' && "browser.publish"@[0] == 'b');
    assert("process.inspect"@[0] == 'p' && "browser.publish"@[0] == 'b');
    assert("filesystem.search_files"@[0] == 'f' && "network.public_listener"@[0] == 'n');
    assert("filesystem.write"@[0] == 'f' && "browser.purchase"@[0] == 'b');
    assert("terminal.exec"@[9] == 'e' && "terminal.poll"@[9] == 'p');
    assert("terminal.elevated"@[0] == 't' && "process.terminate"@[0] == 'p');
    reveal_strlit("desktop.");
    assert("filesystem.read"@[0] == 'f');
    assert("filesystem.list"@[0] == 'f');
    assert("filesystem.search_files"@[0] == 'f');
    assert("filesystem.search_content"@[0] == 'f');
    assert("filesystem.info"@[0] == 'f');
    assert("filesystem.write"@[0] == 'f');
    assert("terminal.exec"@[0] == 't');
    assert("terminal.poll"@[0] == 't');
    assert("terminal.cancel"@[0] == 't');
    assert("terminal.project_test"@[0] == 't');
    assert("terminal.destructive"@[0] == 't');
    assert("terminal.elevated"@[0] == 't');
    assert("process.list"@[0] == 'p');
    assert("process.inspect"@[0] == 'p');
    assert("process.terminate"@[0] == 'p');
    assert("git.status"@[0] == 'g');
    assert("git.diff"@[0] == 'g');
    assert("browser.session.use"@[0] == 'b');
    assert("browser.secret.extract"@[0] == 'b');
    assert("browser.publish"@[0] == 'b');
    assert("browser.purchase"@[0] == 'b');
    assert("network.public_listener"@[0] == 'n');
    assert("desktop."@.len() == 8 && "desktop."@[0] == 'd');
    if "desktop."@.is_prefix_of(request.envelope.action@) {
        assert(request.envelope.action@.subrange(0, 8)[0] == 'd');
        assert(request.envelope.action@[0] == 'd');
    }
}

/// Two configurations that agree in the entry of an action decide alike on it, however
/// they differ otherwise.
pub proof fn other_entries_do_not_matter(
    one: PolicyConfig,
    other: PolicyConfig,
    request: ActionRequest,
)
    requires
        one.policy_id@ == other.policy_id@,
    ensures
        request.envelope.action@ == "process.list"@ && one.process.list == other.process.list
            ==> decision_on(one, request) == decision_on(other, request),
        request.envelope.action@ == "process.inspect"@ && one.process.inspect == other.process.inspect
            ==> decision_on(one, request) == decision_on(other, request),
        request.envelope.action@ == "process.terminate"@ && one.process.terminate == other.process.terminate
            ==> decision_on(one, request) == decision_on(other, request),
        request.envelope.action@ == "terminal.project_test"@ && one.terminal.project_tests == other.terminal.project_tests
            ==> decision_on(one, request) == decision_on(other, request),
        request.envelope.action@ == "terminal.destructive"@ && one.terminal.destructive == other.terminal.destructive
            ==> decision_on(one, request) == decision_on(other, request),
        request.envelope.action@ == "terminal.elevated"@ && one.terminal.elevated == other.terminal.elevated
            ==> decision_on(one, request) == decision_on(other, request),
        request.envelope.action@ == "browser.session.use"@ && one.browser.authenticated_session_use == other.browser.authenticated_session_use
            ==> decision_on(one, request) == decision_on(other, request),
        request.envelope.action@ == "browser.secret.extract"@ && one.browser.secret_extraction == other.browser.secret_extraction
            ==> decision_on(one, request) == decision_on(other, request),
        request.envelope.action@ == "browser.publish"@ && one.browser.publish == other.browser.publish
            ==> decision_on(one, request) == decision_on(other, request),
        request.envelope.action@ == "browser.purchase"@ && one.browser.purchase == other.browser.purchase
            ==> decision_on(one, request) == decision_on(other, request),
        request.envelope.action@ == "network.public_listener"@ && one.network.public_listener_fallback == other.network.public_listener_fallback
            ==> decision_on(one, request) == decision_on(other, request),
        decided_by_path(request.envelope.action@) && one.filesystem@ == other.filesystem@
            ==> decision_on(one, request) == decision_on(other, request),
        "desktop."@.is_prefix_of(request.envelope.action@) && one.desktop.enabled
            == other.desktop.enabled ==> decision_on(one, request) == decision_on(other, request),
{
    reveal_strlit("filesystem.read");
    reveal_strlit("filesystem.list");
    reveal_strlit("filesystem.search_files");
    reveal_strlit("filesystem.search_content");
    reveal_strlit("filesystem.info");
    reveal_strlit("filesystem.write");
    reveal_strlit("terminal.exec");
    reveal_strlit("terminal.poll");
    reveal_strlit("terminal.cancel");
    reveal_strlit("terminal.project_test");
    reveal_strlit("terminal.destructive");
    reveal_strlit("terminal.elevated");
    reveal_strlit("process.list");
    reveal_strlit("process.inspect");
    reveal_strlit("process.terminate");
    reveal_strlit("git.status");
    reveal_strlit("git.diff");
    reveal_strlit("browser.session.use");
    reveal_strlit("browser.secret.extract");
    reveal_strlit("browser.publish");
    reveal_strlit("browser.purchase");
    reveal_strlit("network.public_listener");
    assert("filesystem.read"@.len() == 15);
    assert("filesystem.list"@.len() == 15);
    assert("filesystem.search_files"@.len() == 23);
    assert("filesystem.search_content"@.len() == 25);
    assert("filesystem.info"@.len() == 15);
    assert("filesystem.write"@.len() == 16);
    assert("terminal.exec"@.len() == 13);
    assert("terminal.poll"@.len() == 13);
    assert("terminal.cancel"@.len() == 15);
    assert("terminal.project_test"@.len() == 21);
    assert("terminal.destructive"@.len() == 20);
    assert("terminal.elevated"@.len() == 17);
    assert("process.list"@.len() == 12);
    assert("process.inspect"@.len() == 15);
    assert("process.terminate"@.len() == 17);
    assert("git.status"@.len() == 10);
    assert("git.diff"@.len() == 8);
    assert("browser.session.use"@.len() == 19);
    assert("browser.secret.extract"@.len() == 22);
    assert("browser.publish"@.len() == 15);
    assert("browser.purchase"@.len() == 16);
    assert("network.public_listener"@.len() == 23);
    assert("filesystem.read"@[11] == 'r' && "filesystem.list"@[11] == 'l');
    assert("filesystem.read"@[11] == 'r' && "filesystem.info"@[11] == 'i');
    assert("filesystem.read"@[0] == 'f' && "terminal.cancel"@[0] == 't');
    assert("filesystem.read"@[0] == 'f' && "process.inspect"@[0] == 'p');
    assert("filesystem.read"@[0] == 'f' && "browser.publish"@[0] == 'b');
    assert("filesystem.list"@[11] == 'l' && "filesystem.info"@[11] == 'i');
    assert("filesystem.list"@[0] == 'f' && "terminal.cancel"@[0] == 't');
    assert("filesystem.list"@[0] == 'f' && "process.inspect"@[0] == 'p');
    assert("filesystem.list"@[0] == 'f' && "browser.publish"@[0] == 'b');
    assert("filesystem.info"@[0] == 'f' && "terminal.cancel"@[0] == 't');
    assert("filesystem.info"@[0] == 'f' && "process.inspect"@[0] == 'p');
    assert("filesystem.info"@[0] == 'f' && "browser.publish"@[0] == 'b');
    assert("terminal.cancel"@[0] == 't' && "process.inspect"@[0] == 'p');
    assert("terminal.cancel"@[0] == 't' && "browser.publish"@[0] == 'b');
    assert("process.inspect"@[0] == 'p' && "browser.publish"@[0] == 'b');
    assert("filesystem.search_files"@[0] == 'f' && "network.public_listener"@[0] == 'n');
    assert("filesystem.write"@[0] == 'f' && "browser.purchase"@[0] == 'b');
    assert("terminal.exec"@[9] == 'e' && "terminal.poll"@[9] == 'p');
    assert("terminal.elevated"@[0] == 't' && "process.terminate"@[0] == 'p');
    reveal_strlit("desktop.");
    assert("filesystem.read"@[0] == 'f');
    assert("filesystem.list"@[0] == 'f');
    assert("filesystem.search_files"@[0] == 'f');
    assert("filesystem.search_content"@[0] == 'f');
    assert("filesystem.info"@[0] == 'f');
    assert("filesystem.write"@[0] == 'f');
    assert("terminal.exec"@[0] == 't');
    assert("terminal.poll"@[0] == 't');
    assert("terminal.cancel"@[0] == 't');
    assert("terminal.project_test"@[0] == 't');
    assert("terminal.destructive"@[0] == 't');
    assert("terminal.elevated"@[0] == 't');
    assert("process.list"@[0] == 'p');
    assert("process.inspect"@[0] == 'p');
    assert("process.terminate"@[0] == 'p');
    assert("git.status"@[0] == 'g');
    assert("git.diff"@[0] == 'g');
    assert("browser.session.use"@[0] == 'b');
    assert("browser.secret.extract"@[0] == 'b');
    assert("browser.publish"@[0] == 'b');
    assert("browser.purchase"@[0] == 'b');
    assert("network.public_listener"@[0] == 'n');
    assert("desktop."@.len() == 8 && "desktop."@[0] == 'd');
    if "desktop."@.is_prefix_of(request.envelope.action@) {
        assert(request.envelope.action@.subrange(0, 8)[0] == 'd');
        assert(request.envelope.action@[0] == 'd');
    }
}

/// Of the rules that cover a target the one with the longest root decides, and of those
/// with equally long roots the last: by its entry for reading to read, and by that for
/// writing to write.
pub proof fn the_rule_with_the_longest_root_decides(
    rules: Seq<FilesystemRule>,
    target: Seq<char>,
    i: int,
)
    requires
        windows_path(target) is Some,
        0 <= i < rules.len(),
        covers(rules[i], windows_path(target)->0),
        forall|j: int|
            0 <= j < rules.len() && covers(#[trigger] rules[j], windows_path(target)->0)
                ==> encode_utf8(windows_path(rules[j].path@)->0).len() < encode_utf8(
                windows_path(rules[i].path@)->0,
            ).len() || (j <= i && encode_utf8(windows_path(rules[j].path@)->0).len()
                == encode_utf8(windows_path(rules[i].path@)->0).len()),
    ensures
        filesystem_rule(rules, target, false) == rules[i].read,
        filesystem_rule(rules, target, true) == rules[i].write,
{
    let path = windows_path(target)->0;
    assert(governs(rules, i, path));
    let chosen = choose|c: int| governs(rules, c, path);
    lemma_governs_once(rules, chosen, i, path);
}

/// Where some rule covers a target, one of the covering rules decides; where none does,
/// or the target has no plain spelling, it is denied.
pub proof fn some_covering_rule_decides(rules: Seq<FilesystemRule>, target: Seq<char>)
    ensures
        filesystem_rule(rules, target, true) == RuleDecision::Deny || exists|i: int|
            {
                &&& 0 <= i < rules.len()
                &&& windows_path(target) is Some
                &&& covers(#[trigger] rules[i], windows_path(target)->0)
                &&& filesystem_rule(rules, target, true) == rules[i].write
                &&& filesystem_rule(rules, target, false) == rules[i].read
            },
{
    if windows_path(target) is Some && exists|i: int| governs(rules, i, windows_path(target)->0) {
        let i = choose|i: int| governs(rules, i, windows_path(target)->0);
        assert(covers(rules[i], windows_path(target)->0));
    }
}

/// A rule covers a target if and only if its root has a plain spelling, and the target
/// is that root, or goes on behind it with a new component; letters of either case are
/// the same.
pub proof fn rules_cover_whole_components(rule: FilesystemRule, target: Seq<char>)
    ensures
        covers(rule, target) == (windows_path(rule.path@) matches Some(root) && {
            let t = text::ascii_lower(target);
            let r = text::ascii_lower(root);
            ||| t == r
            ||| root.len() > 0 && root.last() == '\\' && t.len() >= r.len() && t.take(
                r.len() as int,
            ) == r
            ||| t.len() > r.len() && t.take(r.len() as int) == r && target[r.len() as int] == '\\'
        }),
{
    if let Some(root) = windows_path(rule.path@) {
        let t = text::ascii_lower(target);
        let r = text::ascii_lower(root);
        let d = text::ascii_lower(directory_prefix(root));
        if root.len() > 0 && root.last() == '\\' {
            assert(d =~= r);
            if t.len() >= r.len() {
                assert(t.subrange(0, r.len() as int) =~= t.take(r.len() as int));
            }
        } else {
            assert(d =~= r.push('\\'));
            if t.len() > r.len() {
                assert(t[r.len() as int] == text::lower(target[r.len() as int]));
                assert(t.subrange(0, d.len() as int).drop_last() =~= t.take(r.len() as int));
                assert(t.subrange(0, d.len() as int) =~= t.take(r.len() as int).push(
                    t[r.len() as int],
                ));
                if d.is_prefix_of(t) {
                    assert(d[r.len() as int] == t[r.len() as int]);
                    assert(d.drop_last() =~= r);
                }
            }
        }
    }
}

/// A path has a plain spelling if and only if, with white space around it removed and
/// slashes for backslashes, it begins with a drive, and no component behind the drive is
/// `.` or `..` or has a colon or a zero character in it. The plain spelling is the drive
/// in a capital letter and the components that are not empty, in small letters.
pub proof fn plain_paths_name_drive_and_components(input: Seq<char>)
    ensures
        ({
            let path = text::replace_char(text::trim(input), '/', '\\');
            let pieces = text::split_on(path.skip(3), '\\');
            let solid = pieces.filter(|piece: Seq<char>| piece.len() > 0);
            let small = solid.map_values(|piece: Seq<char>| text::ascii_lower(piece));
            &&& windows_path(input) is Some == {
                &&& path.len() >= 3
                &&& ('a' <= path[0] <= 'z' || 'A' <= path[0] <= 'Z')
                &&& path[1] == ':'
                &&& path[2] == '\\'
                &&& forall|i: int|
                    0 <= i < solid.len() ==> (#[trigger] solid[i]) != "."@ && solid[i] != ".."@
                        && !solid[i].contains(':') && !solid[i].contains('\0')
            }
            &&& windows_path(input) matches Some(plain) ==> plain.take(3) == seq![
                text::upper(path[0]),
                ':',
                '\\',
            ] && plain.skip(3) == text::join_with(small, "\\"@)
        }),
{
    let path = text::replace_char(text::trim(input), '/', '\\');
    let pieces = text::split_on(path.skip(3), '\\');
    let solid = pieces.filter(|piece: Seq<char>| piece.len() > 0);
    let small = solid.map_values(|piece: Seq<char>| text::ascii_lower(piece));
    assert(path_parts(path) =~= solid);
    assert(lowered(solid) =~= small);
    if let Some(plain) = windows_path(input) {
        let tail = text::join_with(small, "\\"@);
        assert(plain =~= seq![text::upper(path[0]), ':', '\\'] + tail);
        assert(plain.skip(3) =~= tail);
        assert(plain.take(3) =~= seq![text::upper(path[0]), ':', '\\']);
    }
}

/// The program that a command starts is named by what stands behind the last slash, in
/// small letters, without the ending of a Windows program.
pub proof fn programs_are_named_by_their_file(directory: Seq<char>, file: Seq<char>)
    requires
        forall|i: int| 0 <= i < file.len() ==> #[trigger] file[i] != '/' && file[i] != '\\',
    ensures
        program_name(directory.push('/') + file) == program_name(file),
        program_name(directory.push('\\') + file) == program_name(file),
        ({
            let small = text::ascii_lower(file);
            let ends = |ending: Seq<char>|
                small.len() >= 4 && small.skip(small.len() - 4) == ending;
            program_name(file) == (if ends(".exe"@) || ends(".cmd"@) || ends(".bat"@) || ends(
                ".com"@,
            ) {
                small.take(small.len() - 4)
            } else {
                small
            })
        }),
{
    let n = directory.len() as int + 1;
    let one = directory.push('/') + file;
    let two = directory.push('\\') + file;
    lemma_base_name(one, n);
    lemma_base_name(two, n);
    lemma_base_name(file, 0);
    assert(one.skip(n) =~= file);
    assert(two.skip(n) =~= file);
    assert(file.skip(0) =~= file);
    let small = text::ascii_lower(file);
    reveal_strlit(".exe");
    reveal_strlit(".cmd");
    reveal_strlit(".bat");
    reveal_strlit(".com");
    assert(".exe"@.len() == 4);
    assert(".cmd"@.len() == 4);
    assert(".bat"@.len() == 4);
    assert(".com"@.len() == 4);
    assert(".exe"@[1] == 'e' && ".cmd"@[1] == 'c');
    assert(".exe"@[1] == 'e' && ".bat"@[1] == 'b');
    assert(".exe"@[1] == 'e' && ".com"@[1] == 'c');
    assert(".cmd"@[1] == 'c' && ".bat"@[1] == 'b');
    assert(".cmd"@[2] == 'm' && ".com"@[2] == 'o');
    assert(".bat"@[1] == 'b' && ".com"@[1] == 'c');
    if small.len() >= 4 {
        let end = small.skip(small.len() - 4);
        assert(end =~= small.subrange(small.len() - 4, small.len() as int));
        assert(".exe"@.is_suffix_of(small) == (end == ".exe"@));
        assert(".cmd"@.is_suffix_of(small) == (end == ".cmd"@));
        assert(".bat"@.is_suffix_of(small) == (end == ".bat"@));
        assert(".com"@.is_suffix_of(small) == (end == ".com"@));
    }
}

/// The argument is the switch itself, or the switch with its value behind an equals
/// sign.
pub open spec fn spelled_out(argument: Seq<char>, switch: Seq<char>) -> bool {
    argument == switch || (argument.len() > switch.len() && argument.take(switch.len() as int)
        == switch && argument[switch.len() as int] == '=')
}

/// The argument begins with a letter behind a dash.
pub open spec fn dashed(argument: Seq<char>, letter: char) -> bool {
    argument.len() >= 2 && argument[0] == '-' && argument[1] == letter
}

/// One of the arguments is a switch of some kind, and all before it begin with a dash
/// and are not the two dashes that end the switches.
pub open spec fn comes_with(argv: Seq<Seq<char>>, wanted: spec_fn(Seq<char>) -> bool) -> bool {
    exists|k: int|
        #![trigger argv[k]]
        1 <= k < argv.len() && text::ascii_lower(argv[k]) != "--"@ && wanted(
            text::ascii_lower(argv[k]),
        ) && forall|j: int|
            1 <= j < k ==> text::ascii_lower(#[trigger] argv[j]) != "--"@ && argv[j].len() > 0
                && text::ascii_lower(argv[j])[0] == '-'
}

proof fn lemma_flags(argument: Seq<char>)
    ensures
        flag_given(argument, "-c"@) == dashed(argument, 'c'),
        flag_given(argument, "-e"@) == dashed(argument, 'e'),
        flag_given(argument, "-p"@) == dashed(argument, 'p'),
        flag_given(argument, "--eval"@) == spelled_out(argument, "--eval"@),
        flag_given(argument, "--print"@) == spelled_out(argument, "--print"@),
        flag_given(argument, "--command"@) == spelled_out(argument, "--command"@),
{
    reveal_strlit("-c");
    reveal_strlit("-e");
    reveal_strlit("-p");
    reveal_strlit("--eval");
    reveal_strlit("--print");
    reveal_strlit("--command");
    reveal_strlit("--");
    assert("-c"@.len() == 2);
    assert("-e"@.len() == 2);
    assert("-p"@.len() == 2);
    assert("--eval"@.len() == 6);
    assert("--print"@.len() == 7);
    assert("--command"@.len() == 9);
    assert("--"@.len() == 2);
    assert("-c"@ =~= seq!['-', 'c']);
    assert("-e"@ =~= seq!['-', 'e']);
    assert("-p"@ =~= seq!['-', 'p']);
    lemma_short_flag(argument, "-c"@, 'c');
    lemma_short_flag(argument, "-e"@, 'e');
    lemma_short_flag(argument, "-p"@, 'p');
    lemma_long_flag(argument, "--eval"@);
    lemma_long_flag(argument, "--print"@);
    lemma_long_flag(argument, "--command"@);
}

proof fn lemma_short_flag(argument: Seq<char>, flag: Seq<char>, letter: char)
    requires
        flag == seq!['-', letter],
        letter != '-',
    ensures
        flag_given(argument, flag) == dashed(argument, letter),
{
    reveal_strlit("--");
    assert(!"--"@.is_prefix_of(flag)) by {
        if "--"@.is_prefix_of(flag) {
            assert("--"@[1] == flag.subrange(0, 2)[1]);
        }
    }
    if argument.len() >= 2 {
        assert(argument.subrange(0, 2) =~= seq![argument[0], argument[1]]);
        if flag.is_prefix_of(argument) {
            assert(argument.subrange(0, 2)[0] == flag[0]);
            assert(argument.subrange(0, 2)[1] == flag[1]);
        }
        if dashed(argument, letter) {
            assert(argument.subrange(0, 2) =~= flag);
            if argument.len() == 2 {
                assert(argument =~= flag);
            }
        }
    }
}

proof fn lemma_long_flag(argument: Seq<char>, flag: Seq<char>)
    requires
        flag.len() > 2,
        flag[0] == '-',
        flag[1] == '-',
    ensures
        flag_given(argument, flag) == spelled_out(argument, flag),
{
    reveal_strlit("--");
    assert("--"@ =~= flag.subrange(0, 2));
    let long = flag.push('=');
    if argument.len() > flag.len() {
        let n = flag.len() as int;
        assert(argument.subrange(0, n + 1).drop_last() =~= argument.take(n));
        assert(argument.subrange(0, n + 1) =~= argument.take(n).push(argument[n]));
        if long.is_prefix_of(argument) {
            assert(long.drop_last() =~= flag);
            assert(long.last() == argument[n]);
        }
    }
}

/// A command hands its interpreter a program in an argument, exactly: Python with `-c`;
/// Node with `-e`, `-p`, `--eval` or `--print`; Ruby, Perl and `osascript` with `-e`; a
/// POSIX shell with `-c` or `--command`; WSL with any argument at all. The short switches
/// may have the program glued on, the long ones behind an equals sign, and nothing but
/// switches may stand before them. A program of another name gets none.
pub proof fn evaluation_switches_are_told(argv: Seq<Seq<char>>)
    requires
        argv.len() > 0,
    ensures
        ({
            let name = program_name(argv[0]);
            let python = name == "python"@ || name == "python3"@ || name == "py"@ || (name.len()
                >= 8 && name.take(8) == "python3."@);
            let shell = name == "bash"@ || name == "sh"@ || name == "zsh"@ || name == "fish"@
                || name == "dash"@ || name == "ksh"@;
            &&& python ==> inline_eval(argv) == comes_with(argv, |a: Seq<char>| dashed(a, 'c'))
            &&& name == "node"@ ==> inline_eval(argv) == comes_with(
                argv,
                |a: Seq<char>|
                    dashed(a, 'e') || dashed(a, 'p') || spelled_out(a, "--eval"@) || spelled_out(
                        a,
                        "--print"@,
                    ),
            )
            &&& name == "ruby"@ || name == "perl"@ || name == "osascript"@ ==> inline_eval(argv)
                == comes_with(argv, |a: Seq<char>| dashed(a, 'e'))
            &&& shell ==> inline_eval(argv) == comes_with(
                argv,
                |a: Seq<char>| dashed(a, 'c') || spelled_out(a, "--command"@),
            )
            &&& name == "wsl"@ ==> inline_eval(argv) == (argv.len() > 1)
            &&& !python && !shell && name != "node"@ && name != "ruby"@ && name != "perl"@ && name
                != "osascript"@ && name != "wsl"@ && name != "cmd"@ && name != "powershell"@
                && name != "pwsh"@ ==> !inline_eval(argv)
        }),
{
    let name = program_name(argv[0]);
    reveal_strlit("python");
    reveal_strlit("python3");
    reveal_strlit("py");
    reveal_strlit("node");
    reveal_strlit("ruby");
    reveal_strlit("perl");
    reveal_strlit("osascript");
    reveal_strlit("powershell");
    reveal_strlit("pwsh");
    reveal_strlit("cmd");
    reveal_strlit("bash");
    reveal_strlit("sh");
    reveal_strlit("zsh");
    reveal_strlit("fish");
    reveal_strlit("dash");
    reveal_strlit("ksh");
    reveal_strlit("wsl");
    reveal_strlit("python3.");
    assert("python"@.len() == 6);
    assert("python3"@.len() == 7);
    assert("py"@.len() == 2);
    assert("node"@.len() == 4);
    assert("ruby"@.len() == 4);
    assert("perl"@.len() == 4);
    assert("osascript"@.len() == 9);
    assert("powershell"@.len() == 10);
    assert("pwsh"@.len() == 4);
    assert("cmd"@.len() == 3);
    assert("bash"@.len() == 4);
    assert("sh"@.len() == 2);
    assert("zsh"@.len() == 3);
    assert("fish"@.len() == 4);
    assert("dash"@.len() == 4);
    assert("ksh"@.len() == 3);
    assert("wsl"@.len() == 3);
    assert("python3."@.len() == 8);
    assert("py"@[0] == 'p' && "sh"@[0] == 's');
    assert("node"@[0] == 'n' && "ruby"@[0] == 'r');
    assert("node"@[0] == 'n' && "perl"@[0] == 'p');
    assert("node"@[0] == 'n' && "pwsh"@[0] == 'p');
    assert("node"@[0] == 'n' && "bash"@[0] == 'b');
    assert("node"@[0] == 'n' && "fish"@[0] == 'f');
    assert("node"@[0] == 'n' && "dash"@[0] == 'd');
    assert("ruby"@[0] == 'r' && "perl"@[0] == 'p');
    assert("ruby"@[0] == 'r' && "pwsh"@[0] == 'p');
    assert("ruby"@[0] == 'r' && "bash"@[0] == 'b');
    assert("ruby"@[0] == 'r' && "fish"@[0] == 'f');
    assert("ruby"@[0] == 'r' && "dash"@[0] == 'd');
    assert("perl"@[1] == 'e' && "pwsh"@[1] == 'w');
    assert("perl"@[0] == 'p' && "bash"@[0] == 'b');
    assert("perl"@[0] == 'p' && "fish"@[0] == 'f');
    assert("perl"@[0] == 'p' && "dash"@[0] == 'd');
    assert("pwsh"@[0] == 'p' && "bash"@[0] == 'b');
    assert("pwsh"@[0] == 'p' && "fish"@[0] == 'f');
    assert("pwsh"@[0] == 'p' && "dash"@[0] == 'd');
    assert("bash"@[0] == 'b' && "fish"@[0] == 'f');
    assert("bash"@[0] == 'b' && "dash"@[0] == 'd');
    assert("fish"@[0] == 'f' && "dash"@[0] == 'd');
    assert("cmd"@[0] == 'c' && "zsh"@[0] == 'z');
    assert("cmd"@[0] == 'c' && "ksh"@[0] == 'k');
    assert("cmd"@[0] == 'c' && "wsl"@[0] == 'w');
    assert("zsh"@[0] == 'z' && "ksh"@[0] == 'k');
    assert("zsh"@[0] == 'z' && "wsl"@[0] == 'w');
    assert("ksh"@[0] == 'k' && "wsl"@[0] == 'w');
    assert forall|a: Seq<char>| true implies {
        &&& #[trigger] flag_given(a, "-c"@) == dashed(a, 'c')
        &&& flag_given(a, "-e"@) == dashed(a, 'e')
        &&& flag_given(a, "-p"@) == dashed(a, 'p')
        &&& flag_given(a, "--eval"@) == spelled_out(a, "--eval"@)
        &&& flag_given(a, "--print"@) == spelled_out(a, "--print"@)
        &&& flag_given(a, "--command"@) == spelled_out(a, "--command"@)
    } by {
        lemma_flags(a);
    }
    assert("python3."@.is_prefix_of(name) == (name.len() >= 8 && name.take(8) == "python3."@)) by {
        if name.len() >= 8 {
            assert(name.subrange(0, 8) =~= name.take(8));
        }
    }
    if name.len() >= 8 && name.take(8) == "python3."@ {
        assert(name.take(8)[0] == 'p' && name.take(8)[1] == 'y' && name.take(8)[7] == '.');
        assert(name[0] == 'p' && name[1] == 'y' && name[7] == '.');
        assert("osascript"@[0] == 'o' && "powershell"@[1] == 'o');
    }
    let program = interpreter(name);
    let wanted = |a: Seq<char>| eval_flag(program, a);
    if !takes_slashes(program) {
        assert(eval_flag_given(program, argv) == comes_with(argv, wanted)) by {
            if eval_flag_given(program, argv) {
                let k = choose|k: int|
                    1 <= k < argv.len() && text::ascii_lower(argv[k]) != "--"@ && eval_flag(
                        program,
                        text::ascii_lower(#[trigger] argv[k]),
                    ) && forall|j: int|
                        1 <= j < k ==> is_switch(program, text::ascii_lower(#[trigger] argv[j]));
                assert(wanted(text::ascii_lower(argv[k])));
                assert forall|j: int| 1 <= j < k implies text::ascii_lower(#[trigger] argv[j])
                    != "--"@ && argv[j].len() > 0 && text::ascii_lower(argv[j])[0] == '-' by {
                    assert(is_switch(program, text::ascii_lower(argv[j])));
                }
                assert(comes_with(argv, wanted));
            }
            if comes_with(argv, wanted) {
                let k = choose|k: int|
                    #![trigger argv[k]]
                    1 <= k < argv.len() && text::ascii_lower(argv[k]) != "--"@ && wanted(
                        text::ascii_lower(argv[k]),
                    ) && forall|j: int|
                        1 <= j < k ==> text::ascii_lower(#[trigger] argv[j]) != "--"@
                            && argv[j].len() > 0 && text::ascii_lower(argv[j])[0] == '-';
                assert forall|j: int| 1 <= j < k implies is_switch(
                    program,
                    text::ascii_lower(#[trigger] argv[j]),
                ) by {
                    assert(text::ascii_lower(argv[j]).len() == argv[j].len());
                }
                assert(eval_flag_given(program, argv));
            }
        }
        if program is Python {
            assert(wanted =~= (|a: Seq<char>| dashed(a, 'c')));
        }
        if program is Node {
            assert(wanted =~= (|a: Seq<char>|
                dashed(a, 'e') || dashed(a, 'p') || spelled_out(a, "--eval"@) || spelled_out(
                    a,
                    "--print"@,
                ))) by {
                assert forall|a: Seq<char>| #[trigger] wanted(a) == (dashed(a, 'e') || dashed(
                    a,
                    'p',
                ) || spelled_out(a, "--eval"@) || spelled_out(a, "--print"@)) by {
                    lemma_flags(a);
                }
            }
        }
        if program is RubyPerl || program is Osascript {
            assert(wanted =~= (|a: Seq<char>| dashed(a, 'e'))) by {
                assert forall|a: Seq<char>| #[trigger] wanted(a) == dashed(a, 'e') by {
                    lemma_flags(a);
                }
            }
        }
        if program is PosixShell {
            assert(wanted =~= (|a: Seq<char>| dashed(a, 'c') || spelled_out(a, "--command"@)));
        }
    }
}

/// The command line interpreter of Windows runs what comes with `/c`, `/k` or `/r`, glued
/// on or not, with nothing but slashed switches before it; nothing else is told apart
/// that does not begin with a slash or a dash.
pub proof fn windows_command_lines_are_told(argv: Seq<Seq<char>>)
    requires
        argv.len() > 0,
        program_name(argv[0]) == "cmd"@,
    ensures
        (exists|k: int|
            #![trigger argv[k]]
            1 <= k < argv.len() && argv[k].len() >= 2 && argv[k][0] == '/' && (argv[k][1] == 'c'
                || argv[k][1] == 'C' || argv[k][1] == 'k' || argv[k][1] == 'K' || argv[k][1] == 'r'
                || argv[k][1] == 'R') && forall|j: int|
                1 <= j < k ==> (#[trigger] argv[j]).len() > 0 && argv[j][0] == '/')
            ==> inline_eval(argv),
        (argv.len() == 1 || (argv[1].len() == 0 || (argv[1][0] != '/' && argv[1][0] != '-')))
            ==> !inline_eval(argv),
{
    reveal_strlit("python");
    reveal_strlit("python3");
    reveal_strlit("py");
    reveal_strlit("node");
    reveal_strlit("ruby");
    reveal_strlit("perl");
    reveal_strlit("osascript");
    reveal_strlit("powershell");
    reveal_strlit("pwsh");
    reveal_strlit("cmd");
    reveal_strlit("bash");
    reveal_strlit("sh");
    reveal_strlit("zsh");
    reveal_strlit("fish");
    reveal_strlit("dash");
    reveal_strlit("ksh");
    reveal_strlit("wsl");
    assert("python"@.len() == 6);
    assert("python3"@.len() == 7);
    assert("py"@.len() == 2);
    assert("node"@.len() == 4);
    assert("ruby"@.len() == 4);
    assert("perl"@.len() == 4);
    assert("osascript"@.len() == 9);
    assert("powershell"@.len() == 10);
    assert("pwsh"@.len() == 4);
    assert("cmd"@.len() == 3);
    assert("bash"@.len() == 4);
    assert("sh"@.len() == 2);
    assert("zsh"@.len() == 3);
    assert("fish"@.len() == 4);
    assert("dash"@.len() == 4);
    assert("ksh"@.len() == 3);
    assert("wsl"@.len() == 3);
    assert("py"@[0] == 'p' && "sh"@[0] == 's');
    assert("node"@[0] == 'n' && "ruby"@[0] == 'r');
    assert("node"@[0] == 'n' && "perl"@[0] == 'p');
    assert("node"@[0] == 'n' && "pwsh"@[0] == 'p');
    assert("node"@[0] == 'n' && "bash"@[0] == 'b');
    assert("node"@[0] == 'n' && "fish"@[0] == 'f');
    assert("node"@[0] == 'n' && "dash"@[0] == 'd');
    assert("ruby"@[0] == 'r' && "perl"@[0] == 'p');
    assert("ruby"@[0] == 'r' && "pwsh"@[0] == 'p');
    assert("ruby"@[0] == 'r' && "bash"@[0] == 'b');
    assert("ruby"@[0] == 'r' && "fish"@[0] == 'f');
    assert("ruby"@[0] == 'r' && "dash"@[0] == 'd');
    assert("perl"@[1] == 'e' && "pwsh"@[1] == 'w');
    assert("perl"@[0] == 'p' && "bash"@[0] == 'b');
    assert("perl"@[0] == 'p' && "fish"@[0] == 'f');
    assert("perl"@[0] == 'p' && "dash"@[0] == 'd');
    assert("pwsh"@[0] == 'p' && "bash"@[0] == 'b');
    assert("pwsh"@[0] == 'p' && "fish"@[0] == 'f');
    assert("pwsh"@[0] == 'p' && "dash"@[0] == 'd');
    assert("bash"@[0] == 'b' && "fish"@[0] == 'f');
    assert("bash"@[0] == 'b' && "dash"@[0] == 'd');
    assert("fish"@[0] == 'f' && "dash"@[0] == 'd');
    assert("cmd"@[0] == 'c' && "zsh"@[0] == 'z');
    assert("cmd"@[0] == 'c' && "ksh"@[0] == 'k');
    assert("cmd"@[0] == 'c' && "wsl"@[0] == 'w');
    assert("zsh"@[0] == 'z' && "ksh"@[0] == 'k');
    assert("zsh"@[0] == 'z' && "wsl"@[0] == 'w');
    assert("ksh"@[0] == 'k' && "wsl"@[0] == 'w');
    reveal_strlit("/c");
    reveal_strlit("/k");
    reveal_strlit("/r");
    reveal_strlit("/");
    reveal_strlit("--");
    reveal_strlit("python3.");
    assert("/c"@.len() == 2);
    assert("/k"@.len() == 2);
    assert("/r"@.len() == 2);
    assert("/"@.len() == 1);
    assert("--"@.len() == 2);
    assert("python3."@.len() == 8);
    assert forall|a: Seq<char>| true implies #[trigger] cmd_runs(a) == (a.len() >= 2 && a[0] == '/'
        && (a[1] == 'c' || a[1] == 'k' || a[1] == 'r')) by {
        if a.len() >= 2 {
            assert(a.subrange(0, 2) =~= seq![a[0], a[1]]);
            assert("/c"@ =~= seq!['/', 'c']);
            assert("/k"@ =~= seq!['/', 'k']);
            assert("/r"@ =~= seq!['/', 'r']);
            assert("/c"@.is_prefix_of(a) == (a[0] == '/' && a[1] == 'c'));
            assert("/k"@.is_prefix_of(a) == (a[0] == '/' && a[1] == 'k'));
            assert("/r"@.is_prefix_of(a) == (a[0] == '/' && a[1] == 'r'));
        }
    }
    if exists|k: int|
        #![trigger argv[k]]
        1 <= k < argv.len() && argv[k].len() >= 2 && argv[k][0] == '/' && (argv[k][1] == 'c'
            || argv[k][1] == 'C' || argv[k][1] == 'k' || argv[k][1] == 'K' || argv[k][1] == 'r'
            || argv[k][1] == 'R') && forall|j: int|
            1 <= j < k ==> (#[trigger] argv[j]).len() > 0 && argv[j][0] == '/' {
        let k = choose|k: int|
            #![trigger argv[k]]
            1 <= k < argv.len() && argv[k].len() >= 2 && argv[k][0] == '/' && (argv[k][1] == 'c'
                || argv[k][1] == 'C' || argv[k][1] == 'k' || argv[k][1] == 'K' || argv[k][1] == 'r'
                || argv[k][1] == 'R') && forall|j: int|
                1 <= j < k ==> (#[trigger] argv[j]).len() > 0 && argv[j][0] == '/';
        let small = text::ascii_lower(argv[k]);
        assert(small[0] == '/' && (small[1] == 'c' || small[1] == 'k' || small[1] == 'r'));
        assert(cmd_runs(small));
        assert forall|j: int| 1 <= j < k implies "/"@.is_prefix_of(
            text::ascii_lower(#[trigger] argv[j]),
        ) by {
            let a = text::ascii_lower(argv[j]);
            assert(a[0] == '/');
            assert(a.subrange(0, 1) =~= "/"@);
        }
        assert(cmd_inline(argv));
    }
    if argv.len() > 1 && (argv[1].len() == 0 || (argv[1][0] != '/' && argv[1][0] != '-')) {
        let a = text::ascii_lower(argv[1]);
        assert(a.len() == argv[1].len());
        assert(argv[1].len() > 0 ==> a[0] != '/' && a[0] != '-');
        if "/"@.is_prefix_of(a) {
            assert(a.subrange(0, 1)[0] == '/');
        }
        assert(!cmd_runs(a));
        assert(!is_switch(Interpreter::Cmd, a));
        assert(!flag_given(a, "/c"@) && !flag_given(a, "/k"@));
        if inline_eval(argv) {
            if cmd_inline(argv) {
                let k = choose|k: int|
                    1 <= k < argv.len() && cmd_runs(text::ascii_lower(#[trigger] argv[k]))
                        && forall|j: int|
                        1 <= j < k ==> "/"@.is_prefix_of(text::ascii_lower(#[trigger] argv[j]));
                assert(k > 1);
                assert("/"@.is_prefix_of(text::ascii_lower(argv[1])));
            } else {
                let k = choose|k: int|
                    1 <= k < argv.len() && text::ascii_lower(argv[k]) != "--"@ && eval_flag(
                        Interpreter::Cmd,
                        text::ascii_lower(#[trigger] argv[k]),
                    ) && forall|j: int|
                        1 <= j < k ==> is_switch(
                            Interpreter::Cmd,
                            text::ascii_lower(#[trigger] argv[j]),
                        );
                assert(k > 1);
                assert(is_switch(Interpreter::Cmd, text::ascii_lower(argv[1])));
            }
        }
    }
}

/// What is no switch is a program to Windows PowerShell, and a file to the other.
pub proof fn powershell_editions_differ_in_plain_arguments(
    argv: Seq<Seq<char>>,
    i: int,
    windows: bool,
)
    requires
        0 <= i < argv.len(),
        argv[i].len() == 0 || (argv[i][0] != '-' && argv[i][0] != '/'),
    ensures
        powershell_inline(argv, i, windows) == windows,
{
    let a = text::ascii_lower(argv[i]);
    reveal_strlit("-");
    reveal_strlit("--");
    reveal_strlit("/");
    assert(a.len() == argv[i].len());
    assert(a.len() > 0 ==> a[0] == text::lower(argv[i][0]));
    if "--"@.is_prefix_of(a) {
        assert("--"@[0] == a.subrange(0, 2)[0]);
    }
    if "-"@.is_prefix_of(a) {
        assert("-"@[0] == a.subrange(0, 1)[0]);
    }
    if "/"@.is_prefix_of(a) {
        assert("/"@[0] == a.subrange(0, 1)[0]);
    }
}

/// The name is a start of the full one, of some length at least.
pub open spec fn abbreviates(name: Seq<char>, full: Seq<char>, least: int) -> bool {
    least <= name.len() <= full.len() && full.take(name.len() as int) == name
}

/// PowerShell reads its switches one by one. A name of one that means a command, behind a
/// dash, two dashes or a slash, makes what follows a program; one that means a file does
/// not; one that takes a value takes the next argument with it, unless a colon holds its
/// value; every other one is passed over.
pub proof fn powershell_switches_are_told(
    argv: Seq<Seq<char>>,
    i: int,
    name: Seq<char>,
    value: Seq<char>,
    windows: bool,
)
    requires
        0 <= i < argv.len(),
        name.len() > 0,
        name[0] != '-',
        forall|k: int| 0 <= k < name.len() ==> #[trigger] name[k] != ':',
        value.len() > 0 ==> value[0] == ':',
        text::ascii_lower(argv[i]) == seq!['-'] + name + value || text::ascii_lower(argv[i])
            == seq!['/'] + name + value || text::ascii_lower(argv[i]) == seq!['-', '-'] + name
            + value,
    ensures
        ({
            let runs = abbreviates(name, "command"@, 1) || abbreviates(name, "encodedcommand"@, 2)
                || abbreviates(name, "commandwithargs"@, 8) || name == "e"@ || name == "ec"@ || name
                == "cwa"@;
            let file = abbreviates(name, "file"@, 2) || name == "f"@;
            let valued = abbreviates(name, "executionpolicy"@, 3) || abbreviates(
                name,
                "windowstyle"@,
                3,
            ) || abbreviates(name, "version"@, 3) || abbreviates(name, "workingdirectory"@, 3)
                || abbreviates(name, "configurationname"@, 3) || abbreviates(
                name,
                "configurationfile"@,
                3,
            ) || abbreviates(name, "inputformat"@, 3) || abbreviates(name, "outputformat"@, 3)
                || abbreviates(name, "encodedarguments"@, 3) || abbreviates(
                name,
                "psconsolefile"@,
                3,
            ) || abbreviates(name, "settingsfile"@, 3) || abbreviates(name, "custompipename"@, 3)
                || name == "ep"@ || name == "ex"@ || name == "w"@ || name == "v"@ || name == "wd"@
                || name == "ea"@ || name == "if"@ || name == "of"@;
            let inline = powershell_inline(argv, i, windows);
            &&& runs ==> inline
            &&& !runs && file ==> !inline
            &&& !runs && !file && valued && value.len() == 0 ==> inline == powershell_inline(
                argv,
                i + 2,
                windows,
            )
            &&& !runs && !file && !(valued && value.len() == 0) ==> inline == powershell_inline(
                argv,
                i + 1,
                windows,
            )
        }),
{
    let a = text::ascii_lower(argv[i]);
    let switch = name + value;
    assert(seq!['-'] + name + value =~= seq!['-'] + switch);
    assert(seq!['/'] + name + value =~= seq!['/'] + switch);
    assert(seq!['-', '-'] + name + value =~= seq!['-', '-'] + switch);
    lemma_switch_name(a, switch);
    assert forall|full: Seq<char>| true implies #[trigger] name.is_prefix_of(full) == (name.len()
        <= full.len() && full.take(name.len() as int) == name) by {
        if name.len() <= full.len() {
            assert(full.subrange(0, name.len() as int) =~= full.take(name.len() as int));
        }
    }
    assert forall|k: int| 0 <= k < name.len() implies switch[k] != ':' by {
        assert(switch[k] == name[k]);
    }
    if value.len() > 0 {
        assert(switch[name.len() as int] == value[0]);
    }
    text::lemma_first_index(switch, ':', name.len() as int);
    assert(switch.take(name.len() as int) =~= name);
}

proof fn lemma_switch_name(a: Seq<char>, name: Seq<char>)
    requires
        a == seq!['-'] + name || a == seq!['/'] + name || a == seq!['-', '-'] + name,
        name.len() > 0,
        name[0] != '-',
    ensures
        powershell_switch(a) == Some(name),
{
    reveal_strlit("-");
    reveal_strlit("--");
    reveal_strlit("/");
    assert("-"@.len() == 1 && "--"@.len() == 2 && "/"@.len() == 1);
    if "--"@.is_prefix_of(a) {
        assert(a.subrange(0, 2)[0] == '-' && a.subrange(0, 2)[1] == '-');
        assert(a[1] == '-');
        if a == seq!['-'] + name {
            assert(a[1] == name[0]);
        }
        if a == seq!['/'] + name {
            assert(a[0] == '/');
        }
        assert(a.skip(2) =~= name);
    } else if "-"@.is_prefix_of(a) {
        assert(a.subrange(0, 1)[0] == '-');
        if a == seq!['-', '-'] + name {
            assert(a.subrange(0, 2) =~= "--"@);
        }
        if a == seq!['/'] + name {
            assert(a[0] == '/');
        }
        assert(a.skip(1) =~= name);
    } else {
        if a == seq!['-', '-'] + name {
            assert(a.subrange(0, 2) =~= "--"@);
        }
        if a == seq!['-'] + name {
            assert(a.subrange(0, 1) =~= "-"@);
        }
        assert(a.subrange(0, 1) =~= "/"@);
        assert(a.skip(1) =~= name);
    }
}

/// PowerShell is handed a program if its switches say so from the first argument on, and
/// without arguments it is not.
pub proof fn powershell_reads_from_its_first_argument(argv: Seq<Seq<char>>)
    requires
        argv.len() > 0,
    ensures
        program_name(argv[0]) == "powershell"@ && powershell_inline(argv, 1, true) ==> inline_eval(
            argv,
        ),
        program_name(argv[0]) == "pwsh"@ && powershell_inline(argv, 1, false) ==> inline_eval(argv),
        (program_name(argv[0]) == "powershell"@ || program_name(argv[0]) == "pwsh"@) && argv.len()
            == 1 ==> !inline_eval(argv),
{
    reveal_strlit("python");
    reveal_strlit("python3");
    reveal_strlit("py");
    reveal_strlit("node");
    reveal_strlit("ruby");
    reveal_strlit("perl");
    reveal_strlit("osascript");
    reveal_strlit("powershell");
    reveal_strlit("pwsh");
    reveal_strlit("cmd");
    reveal_strlit("bash");
    reveal_strlit("sh");
    reveal_strlit("zsh");
    reveal_strlit("fish");
    reveal_strlit("dash");
    reveal_strlit("ksh");
    reveal_strlit("wsl");
    reveal_strlit("python3.");
    assert("python"@.len() == 6);
    assert("python3"@.len() == 7);
    assert("py"@.len() == 2);
    assert("node"@.len() == 4);
    assert("ruby"@.len() == 4);
    assert("perl"@.len() == 4);
    assert("osascript"@.len() == 9);
    assert("powershell"@.len() == 10);
    assert("pwsh"@.len() == 4);
    assert("cmd"@.len() == 3);
    assert("bash"@.len() == 4);
    assert("sh"@.len() == 2);
    assert("zsh"@.len() == 3);
    assert("fish"@.len() == 4);
    assert("dash"@.len() == 4);
    assert("ksh"@.len() == 3);
    assert("wsl"@.len() == 3);
    assert("python3."@.len() == 8);
    assert("py"@[0] == 'p' && "sh"@[0] == 's');
    assert("node"@[0] == 'n' && "ruby"@[0] == 'r');
    assert("node"@[0] == 'n' && "perl"@[0] == 'p');
    assert("node"@[0] == 'n' && "pwsh"@[0] == 'p');
    assert("node"@[0] == 'n' && "bash"@[0] == 'b');
    assert("node"@[0] == 'n' && "fish"@[0] == 'f');
    assert("node"@[0] == 'n' && "dash"@[0] == 'd');
    assert("ruby"@[0] == 'r' && "perl"@[0] == 'p');
    assert("ruby"@[0] == 'r' && "pwsh"@[0] == 'p');
    assert("ruby"@[0] == 'r' && "bash"@[0] == 'b');
    assert("ruby"@[0] == 'r' && "fish"@[0] == 'f');
    assert("ruby"@[0] == 'r' && "dash"@[0] == 'd');
    assert("perl"@[1] == 'e' && "pwsh"@[1] == 'w');
    assert("perl"@[0] == 'p' && "bash"@[0] == 'b');
    assert("perl"@[0] == 'p' && "fish"@[0] == 'f');
    assert("perl"@[0] == 'p' && "dash"@[0] == 'd');
    assert("pwsh"@[0] == 'p' && "bash"@[0] == 'b');
    assert("pwsh"@[0] == 'p' && "fish"@[0] == 'f');
    assert("pwsh"@[0] == 'p' && "dash"@[0] == 'd');
    assert("bash"@[0] == 'b' && "fish"@[0] == 'f');
    assert("bash"@[0] == 'b' && "dash"@[0] == 'd');
    assert("fish"@[0] == 'f' && "dash"@[0] == 'd');
    assert("cmd"@[0] == 'c' && "zsh"@[0] == 'z');
    assert("cmd"@[0] == 'c' && "ksh"@[0] == 'k');
    assert("cmd"@[0] == 'c' && "wsl"@[0] == 'w');
    assert("zsh"@[0] == 'z' && "ksh"@[0] == 'k');
    assert("zsh"@[0] == 'z' && "wsl"@[0] == 'w');
    assert("ksh"@[0] == 'k' && "wsl"@[0] == 'w');
    let name = program_name(argv[0]);
    if "python3."@.is_prefix_of(name) {
        assert(name.subrange(0, 8)[1] == 'y');
        assert(name[1] == 'y');
        assert("powershell"@[1] == 'o');
    }
}

/// A document begins behind its byte order marks: what is left does not begin with one,
/// and only marks were before it.
pub proof fn only_byte_order_marks_are_left_out(document: Seq<char>)
    ensures
        ({
            let rest = without_marks(document);
            let n = document.len() - rest.len();
            &&& n >= 0
            &&& rest == document.skip(n)
            &&& forall|i: int| 0 <= i < n ==> #[trigger] document[i] == '\u{feff}'
            &&& rest.len() > 0 ==> rest[0] != '\u{feff}'
        }),
    decreases document.len(),
{
    if document.len() > 0 && document[0] == '\u{feff}' {
        only_byte_order_marks_are_left_out(document.drop_first());
        let rest = without_marks(document);
        let n = document.len() - rest.len();
        assert(document.drop_first().skip(n - 1) =~= document.skip(n));
        assert forall|i: int| 0 <= i < n implies #[trigger] document[i] == '\u{feff}' by {
            if i > 0 {
                assert(document.drop_first()[i - 1] == document[i]);
            }
        }
    } else {
        assert(document.skip(0) =~= document);
    }
}

/// A command has arguments exactly when it is given a list of texts that is not empty, which
/// they are; a policy can be used exactly when it is of the first version and has a name.
pub proof fn commands_come_as_lists_of_texts(request: ActionRequest, config: PolicyConfig)
    ensures
        ({
            let given = protocol::parameter(request.envelope.parameters@, "argv"@);
            let list = given->0->List_0@;
            let r = requested_argv(request);
            &&& r is Some <==> given is Some && given->0 is List && list.len() > 0 && forall|i: int|
                0 <= i < list.len() ==> (#[trigger] list[i]) is Text
            &&& r matches Some(argv) ==> argv.len() == list.len() && forall|i: int|
                0 <= i < list.len() ==> #[trigger] argv[i] == list[i]->Text_0@
        }),
        valid_config(config) <==> config.version == 1 && exists|i: int|
            0 <= i < config.policy_id@.len() && !text::is_white_space(
                #[trigger] config.policy_id@[i],
            ),
{
}

} // verus!
