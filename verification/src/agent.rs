//! The command line of the interactive session: slash commands, plain-language requests and
//! explanations of well-known paths.
use vstd::prelude::*;

use crate::model::{
    all_global_kinds, global_kind_name, global_kind_rank, parse_global_scan_kind, GlobalScanKind,
    ScanRequest,
};
use crate::path::{components, path_components, texts};
use crate::plugin::slash_joined;
use crate::text::{
    chars_of, concat, contains_text, is_whitespace, is_whitespace_char, lower_all, str_eq,
    string_from_chars, to_ascii_lowercase, contains_chars,
};

verus! {

/// Why a command line is refused.
#[derive(Debug, PartialEq, Eq)]
pub enum AgentError {
    EmptyCommand,
    UnknownCommand { command: String },
    UnterminatedQuote { quote: char },
    MissingGlobalKindValue,
    UnsupportedGlobalKind { value: String },
}

/// The message for a refused command line.
pub open spec fn agent_error_text(e: AgentError) -> Seq<char> {
    match e {
        AgentError::EmptyCommand => "empty command"@,
        AgentError::UnknownCommand { command } => "unknown command: "@ + command@,
        AgentError::UnterminatedQuote { quote } => "unterminated "@ + seq![quote] + " quote"@,
        AgentError::MissingGlobalKindValue => "--global-kind requires a value"@,
        AgentError::UnsupportedGlobalKind { value } => "unsupported global scan kind: "@ + value@,
    }
}

impl AgentError {
    /// The message shown to the user.
    pub fn message(&self) -> (res: String)
        ensures
            res@ == agent_error_text(*self),
    {
        match self {
            AgentError::EmptyCommand => "empty command".to_owned(),
            AgentError::UnknownCommand { command } => concat("unknown command: ", command.as_str()),
            AgentError::UnterminatedQuote { quote } => {
                let mut q: Vec<char> = Vec::new();
                q.push(*quote);
                let text = string_from_chars(q.as_slice());
                assert(text@ =~= seq![*quote]);
                let head = concat("unterminated ", text.as_str());
                concat(head.as_str(), " quote")
            },
            AgentError::MissingGlobalKindValue => "--global-kind requires a value".to_owned(),
            AgentError::UnsupportedGlobalKind { value } => concat("unsupported global scan kind: ", value.as_str()),
        }
    }
}

/// How a cleanup was asked for.
#[derive(Debug, Clone, Copy, PartialEq, Eq, Structural)]
pub enum CleanupIntent {
    AgentRequest,
    UserRequest,
    ExplicitUserConfirmation,
}

/// An action the session performs.
#[derive(Debug, Clone, PartialEq, Eq)]
pub enum ActionRequest {
    Scan(ScanRequest),
    Review,
    Plan,
    Clean { intent: CleanupIntent },
    Restore,
    Rules,
    Plugins,
    Languages,
    Tasks,
    Usage(ScanRequest),
    ExportPlan(Option<String>),
    Help,
    Quit,
}

/// The answer to one line of input: a message and the actions it queues.
#[derive(Debug, Clone, PartialEq, Eq)]
pub struct AgentResponse {
    pub message: String,
    pub actions: Vec<ActionRequest>,
}

// ---------------------------------------------------------------- splitting

/// The state of splitting a command line: the words so far, the word being read, the quote
/// that is open and whether the last character was a backslash.
pub struct SplitState {
    pub parts: Seq<Seq<char>>,
    pub current: Seq<char>,
    pub quote: Option<char>,
    pub escaped: bool,
}

/// One character of a command line: a backslash escapes the next character; a quote opens a
/// quoted stretch that the same quote closes; outside quotes white space ends a word.
pub open spec fn split_step(st: SplitState, ch: char) -> SplitState {
    if st.escaped {
        SplitState { current: st.current.push(ch), escaped: false, ..st }
    } else if ch == '\\' {
        SplitState { escaped: true, ..st }
    } else {
        match st.quote {
            Some(active) => if ch == active {
                SplitState { quote: None, ..st }
            } else {
                SplitState { current: st.current.push(ch), ..st }
            },
            None => if ch == '"' || ch == '\'' {
                SplitState { quote: Some(ch), ..st }
            } else if is_whitespace(ch) {
                if st.current.len() > 0 {
                    SplitState { parts: st.parts.push(st.current), current: Seq::empty(), ..st }
                } else {
                    st
                }
            } else {
                SplitState { current: st.current.push(ch), ..st }
            },
        }
    }
}

/// The state after the first `k` characters of `chars`.
pub open spec fn split_prefix(chars: Seq<char>, k: int) -> SplitState
    decreases k,
{
    if k <= 0 {
        SplitState { parts: Seq::empty(), current: Seq::empty(), quote: None, escaped: false }
    } else {
        split_step(split_prefix(chars, k - 1), chars[k - 1])
    }
}

/// The words of a command line, or the quote left open.
pub open spec fn split_words(chars: Seq<char>) -> Result<Seq<Seq<char>>, char> {
    let st = split_prefix(chars, chars.len() as int);
    let current = if st.escaped { st.current.push('\\') } else { st.current };
    match st.quote {
        Some(q) => Err(q),
        None => Ok(if current.len() > 0 { st.parts.push(current) } else { st.parts }),
    }
}

/// The texts of `v`.
pub open spec fn word_views(v: Seq<String>) -> Seq<Seq<char>> {
    Seq::new(v.len(), |i: int| v[i]@)
}

/// Split a command line into words.
pub fn split_command(input: &str) -> (res: Result<Vec<String>, AgentError>)
    ensures
        match split_words(input@) {
            Ok(words) => res matches Ok(v) && word_views(v@) == words,
            Err(q) => res == Err::<Vec<String>, AgentError>(AgentError::UnterminatedQuote { quote: q }),
        },
{
    let chars = chars_of(input);
    let mut parts: Vec<String> = Vec::new();
    let mut current: Vec<char> = Vec::new();
    let mut quote: Option<char> = None;
    let mut escaped = false;
    let mut i: usize = 0;
    while i < chars.len()
        invariant
            i <= chars@.len(),
            chars@ == input@,
            ({
                let st = split_prefix(input@, i as int);
                word_views(parts@) == st.parts && current@ == st.current && quote == st.quote && escaped == st.escaped
            }),
        decreases chars.len() - i,
    {
        let ch = chars[i];
        let ghost before = parts@;
        if escaped {
            current.push(ch);
            escaped = false;
        } else if ch == '\\' {
            escaped = true;
        } else {
            match quote {
                Some(active) => {
                    if ch == active {
                        quote = None;
                    } else {
                        current.push(ch);
                    }
                },
                None => {
                    if ch == '"' || ch == '\'' {
                        quote = Some(ch);
                    } else if is_whitespace_char(ch) {
                        if current.len() > 0 {
                            let word = string_from_chars(current.as_slice());
                            parts.push(word);
                            current = Vec::new();
                            assert(word_views(parts@) =~= word_views(before).push(word@));
                        }
                    } else {
                        current.push(ch);
                    }
                },
            }
        }
        i = i + 1;
    }
    if escaped {
        current.push('\\');
    }
    match quote {
        Some(active) => {
            return Err(AgentError::UnterminatedQuote { quote: active });
        },
        None => {},
    }
    if current.len() > 0 {
        let ghost before = parts@;
        let word = string_from_chars(current.as_slice());
        parts.push(word);
        assert(word_views(parts@) =~= word_views(before).push(word@));
    }
    Ok(parts)
}

// ---------------------------------------------------------------- scan arguments

/// The global scan kinds among `kinds`, once each, in declared order.
pub open spec fn canonical_kinds(kinds: Seq<GlobalScanKind>) -> Seq<GlobalScanKind> {
    all_global_kinds().filter(|k: GlobalScanKind| kinds.contains(k))
}

/// Why scan arguments are refused: `--global-kind` without a value, or an unknown kind.
pub enum ArgFault {
    MissingValue,
    Unsupported(Seq<char>),
}

/// What the scan arguments from position `i` on add to a request: the paths, whether global
/// locations are included, and the kinds named; or why they are refused.
pub open spec fn scan_args_from(args: Seq<Seq<char>>, i: int) -> Result<(Seq<Seq<char>>, bool, Seq<GlobalScanKind>), ArgFault>
    decreases args.len() - i,
{
    if i >= args.len() || i < 0 {
        Ok((Seq::empty(), false, Seq::empty()))
    } else {
        let arg = args[i];
        if arg == "--global"@ {
            match scan_args_from(args, i + 1) {
                Ok((p, _, k)) => Ok((p, true, k)),
                Err(e) => Err(e),
            }
        } else if arg == "--global-kind"@ {
            if i + 1 >= args.len() {
                Err(ArgFault::MissingValue)
            } else if exists|k: GlobalScanKind| global_kind_name(k) == lower_all(args[i + 1]) {
                let kind = choose|k: GlobalScanKind| global_kind_name(k) == lower_all(args[i + 1]);
                match scan_args_from(args, i + 2) {
                    Ok((p, _, k)) => Ok((p, true, seq![kind] + k)),
                    Err(e) => Err(e),
                }
            } else {
                Err(ArgFault::Unsupported(args[i + 1]))
            }
        } else if "--global-kind="@.is_prefix_of(arg) {
            if exists|k: GlobalScanKind| global_kind_name(k) == lower_all(arg.skip(14)) {
                let kind = choose|k: GlobalScanKind| global_kind_name(k) == lower_all(arg.skip(14));
                match scan_args_from(args, i + 1) {
                    Ok((p, _, k)) => Ok((p, true, seq![kind] + k)),
                    Err(e) => Err(e),
                }
            } else {
                Err(ArgFault::Unsupported(arg.skip(14)))
            }
        } else {
            match scan_args_from(args, i + 1) {
                Ok((p, g, k)) => Ok((seq![arg] + p, g, k)),
                Err(e) => Err(e),
            }
        }
    }
}

/// `e` is the error for `fault`.
pub open spec fn reports(e: AgentError, fault: ArgFault) -> bool {
    match fault {
        ArgFault::MissingValue => e == AgentError::MissingGlobalKindValue,
        ArgFault::Unsupported(v) => e matches AgentError::UnsupportedGlobalKind { value } && value@ == v,
    }
}

/// The outcome of scan arguments after the ones already read (`paths`, `global`, `kinds`).
pub open spec fn after_args(paths: Seq<Seq<char>>, global: bool, kinds: Seq<GlobalScanKind>, rest: Result<(Seq<Seq<char>>, bool, Seq<GlobalScanKind>), ArgFault>) -> Result<(Seq<Seq<char>>, bool, Seq<GlobalScanKind>), ArgFault> {
    match rest {
        Ok((p, g, k)) => Ok((paths + p, global || g, kinds + k)),
        Err(e) => Err(e),
    }
}

/// `r` is the request for `paths`, `global` and the kinds named `kinds`.
pub open spec fn request_is(r: ScanRequest, paths: Seq<Seq<char>>, global: bool, kinds: Seq<GlobalScanKind>) -> bool {
    &&& word_views(r.paths@) == paths
    &&& r.include_global == global
    &&& r.global_kinds@ == canonical_kinds(kinds)
    &&& r.inactive_days is None
}

fn canonical_kind_list(kinds: &Vec<GlobalScanKind>) -> (res: Vec<GlobalScanKind>)
    ensures
        res@ == canonical_kinds(kinds@),
{
    let all = crate::model::default_global_scan_kinds();
    let mut res: Vec<GlobalScanKind> = Vec::new();
    let mut i: usize = 0;
    let ghost pred = |k: GlobalScanKind| kinds@.contains(k);
    while i < all.len()
        invariant
            i <= all@.len(),
            all@ == all_global_kinds(),
            pred == (|k: GlobalScanKind| kinds@.contains(k)),
            res@ == all@.take(i as int).filter(pred),
        decreases all.len() - i,
    {
        let kind = all[i];
        let mut present = false;
        let mut j: usize = 0;
        while j < kinds.len()
            invariant
                j <= kinds@.len(),
                present == exists|q: int| 0 <= q < j && kinds@[q] == kind,
            decreases kinds.len() - j,
        {
            if kinds[j] == kind {
                present = true;
            }
            j = j + 1;
        }
        proof {
            let t = all@.take(i + 1);
            assert(t.drop_last() =~= all@.take(i as int));
            assert(t.last() == kind);
            all@.take(i as int).lemma_filter_push(kind, pred);
            assert(t =~= all@.take(i as int).push(kind));
        }
        if present {
            res.push(kind);
        }
        i = i + 1;
    }
    assert(all@.take(all@.len() as int) =~= all@);
    res
}

/// Read the arguments of a scan command.
pub fn parse_scan_request(args: &[String]) -> (res: Result<ScanRequest, AgentError>)
    ensures
        match scan_args_from(word_views(args@), 0) {
            Ok((p, g, k)) => res matches Ok(r) && request_is(r, p, g, k),
            Err(f) => res matches Err(e) && reports(e, f),
        },
{
    let ghost words = word_views(args@);
    let mut paths: Vec<String> = Vec::new();
    let mut global = false;
    let mut kinds: Vec<GlobalScanKind> = Vec::new();
    let mut index: usize = 0;
    proof {
        assert(after_args(Seq::empty(), false, Seq::empty(), scan_args_from(words, 0)) == scan_args_from(words, 0)) by {
            match scan_args_from(words, 0) {
                Ok((p, g, k)) => {
                    assert(Seq::<Seq<char>>::empty() + p =~= p);
                    assert(Seq::<GlobalScanKind>::empty() + k =~= k);
                },
                Err(_) => {},
            }
        }
    }
    while index < args.len()
        invariant
            index <= args@.len(),
            words == word_views(args@),
            scan_args_from(words, 0) == after_args(word_views(paths@), global, kinds@, scan_args_from(words, index as int)),
        decreases args.len() - index,
    {
        proof {
            reveal_strlit("--global");
            reveal_strlit("--global-kind");
            reveal_strlit("--global-kind=");
        }
        let arg = &args[index];
        assert(words[index as int] == arg@);
        if str_eq(arg.as_str(), "--global") {
            proof {
                let rest = scan_args_from(words, index + 1);
                match rest {
                    Ok((p, g, k)) => {},
                    Err(_) => {},
                }
            }
            global = true;
            index = index + 1;
        } else if str_eq(arg.as_str(), "--global-kind") {
            if index + 1 >= args.len() {
                return Err(AgentError::MissingGlobalKindValue);
            }
            let value = &args[index + 1];
            assert(words[index + 1] == value@);
            match parse_global_scan_kind(value.as_str()) {
                Ok(kind) => {
                    global = true;
                    let ghost before = kinds@;
                    kinds.push(kind);
                    proof {
                        let chosen = choose|k: GlobalScanKind| global_kind_name(k) == lower_all(value@);
                        crate::model::lemma_global_kind_name_injective(chosen, kind);
                        assert(kinds@ =~= before + seq![kind]);
                        match scan_args_from(words, index + 2) {
                            Ok((p, g, k)) => {
                                assert(before + (seq![kind] + k) =~= kinds@ + k);
                            },
                            Err(_) => {},
                        }
                    }
                    index = index + 2;
                },
                Err(_) => {
                    return Err(AgentError::UnsupportedGlobalKind { value: value.clone() });
                },
            }
        } else if starts_with_text(arg.as_str(), "--global-kind=") {
            let chars = chars_of(arg.as_str());
            let rest = vstd::slice::slice_subrange(chars.as_slice(), 14, chars.len());
            let value = string_from_chars(rest);
            assert(value@ =~= arg@.skip(14));
            match parse_global_scan_kind(value.as_str()) {
                Ok(kind) => {
                    global = true;
                    let ghost before = kinds@;
                    kinds.push(kind);
                    proof {
                        let chosen = choose|k: GlobalScanKind| global_kind_name(k) == lower_all(value@);
                        crate::model::lemma_global_kind_name_injective(chosen, kind);
                        assert(kinds@ =~= before + seq![kind]);
                        match scan_args_from(words, index + 1) {
                            Ok((p, g, k)) => {
                                assert(before + (seq![kind] + k) =~= kinds@ + k);
                            },
                            Err(_) => {},
                        }
                    }
                    index = index + 1;
                },
                Err(_) => {
                    return Err(AgentError::UnsupportedGlobalKind { value });
                },
            }
        } else {
            let ghost before = word_views(paths@);
            paths.push(arg.clone());
            assert(word_views(paths@) =~= before + seq![arg@]);
            proof {
                match scan_args_from(words, index + 1) {
                    Ok((p, g, k)) => {
                        assert(before + (seq![arg@] + p) =~= word_views(paths@) + p);
                    },
                    Err(_) => {},
                }
            }
            index = index + 1;
        }
    }
    let global_kinds = canonical_kind_list(&kinds);
    Ok(ScanRequest { paths, include_global: global, global_kinds, inactive_days: None })
}

/// `prefix` begins `s`.
pub fn starts_with_text(s: &str, prefix: &str) -> (res: bool)
    ensures
        res == prefix@.is_prefix_of(s@),
{
    let a = chars_of(s);
    let b = chars_of(prefix);
    if b.len() > a.len() {
        return false;
    }
    let mut i: usize = 0;
    while i < b.len()
        invariant
            i <= b@.len() <= a@.len(),
            a@ == s@,
            b@ == prefix@,
            forall|k: int| 0 <= k < i ==> a@[k] == b@[k],
        decreases b.len() - i,
    {
        if a[i] != b[i] {
            return false;
        }
        i = i + 1;
    }
    true
}

// ---------------------------------------------------------------- slash commands

/// `args` asks for explicit confirmation.
pub open spec fn confirms(args: Seq<Seq<char>>) -> bool {
    exists|i: int| 0 <= i < args.len() && args[i] == "--confirm"@
}

/// `res` is what the command line made of `words` gives.
pub open spec fn command_parses(res: Result<ActionRequest, AgentError>, words: Seq<Seq<char>>) -> bool {
    if words.len() == 0 {
        res == Err::<ActionRequest, AgentError>(AgentError::EmptyCommand)
    } else {
        let c = words[0];
        let args = words.skip(1);
        if c == "/scan"@ || c == "/usage"@ || c == "/stats"@ {
            match scan_args_from(args, 0) {
                Ok((p, g, k)) => res matches Ok(a) && (if c == "/scan"@ {
                    a matches ActionRequest::Scan(r) && request_is(r, p, g, k)
                } else {
                    a matches ActionRequest::Usage(r) && request_is(r, p, g, k)
                }),
                Err(f) => res matches Err(e) && reports(e, f),
            }
        } else if c == "/review"@ {
            res == Ok::<ActionRequest, AgentError>(ActionRequest::Review)
        } else if c == "/plan"@ {
            res == Ok::<ActionRequest, AgentError>(ActionRequest::Plan)
        } else if c == "/clean"@ {
            res == Ok::<ActionRequest, AgentError>(ActionRequest::Clean {
                intent: if confirms(args) { CleanupIntent::ExplicitUserConfirmation } else { CleanupIntent::UserRequest },
            })
        } else if c == "/restore"@ {
            res == Ok::<ActionRequest, AgentError>(ActionRequest::Restore)
        } else if c == "/rules"@ {
            res == Ok::<ActionRequest, AgentError>(ActionRequest::Rules)
        } else if c == "/plugins"@ {
            res == Ok::<ActionRequest, AgentError>(ActionRequest::Plugins)
        } else if c == "/languages"@ || c == "/lang"@ {
            res == Ok::<ActionRequest, AgentError>(ActionRequest::Languages)
        } else if c == "/tasks"@ {
            res == Ok::<ActionRequest, AgentError>(ActionRequest::Tasks)
        } else if c == "/export-plan"@ {
            res matches Ok(ActionRequest::ExportPlan(p)) && (if args.len() == 0 { p is None } else { p matches Some(path) && path@ == args[0] })
        } else if c == "/help"@ {
            res == Ok::<ActionRequest, AgentError>(ActionRequest::Help)
        } else if c == "/quit"@ || c == "/q"@ {
            res == Ok::<ActionRequest, AgentError>(ActionRequest::Quit)
        } else {
            res matches Err(AgentError::UnknownCommand { command }) && command@ == c
        }
    }
}

/// Parse a slash command.
pub fn parse_slash_command(input: &str) -> (res: Result<ActionRequest, AgentError>)
    ensures
        match split_words(input@) {
            Ok(words) => command_parses(res, words),
            Err(q) => res == Err::<ActionRequest, AgentError>(AgentError::UnterminatedQuote { quote: q }),
        },
{
    let parts = split_command(input)?;
    if parts.len() == 0 {
        return Err(AgentError::EmptyCommand);
    }
    let ghost words = word_views(parts@);
    let command = parts[0].as_str();
    let args = vstd::slice::slice_subrange(parts.as_slice(), 1, parts.len());
    assert(word_views(args@) =~= words.skip(1));
    assert(words[0] == command@);
    proof {
        reveal_strlit("/scan");
        reveal_strlit("/usage");
        reveal_strlit("/stats");
        reveal_strlit("/review");
        reveal_strlit("/plan");
        reveal_strlit("/clean");
        reveal_strlit("/restore");
        reveal_strlit("/rules");
        reveal_strlit("/plugins");
        reveal_strlit("/languages");
        reveal_strlit("/lang");
        reveal_strlit("/tasks");
        reveal_strlit("/export-plan");
        reveal_strlit("/help");
        reveal_strlit("/quit");
        reveal_strlit("/q");
        reveal_strlit("--confirm");
    }
    if str_eq(command, "/scan") {
        Ok(ActionRequest::Scan(parse_scan_request(args)?))
    } else if str_eq(command, "/usage") || str_eq(command, "/stats") {
        Ok(ActionRequest::Usage(parse_scan_request(args)?))
    } else if str_eq(command, "/review") {
        Ok(ActionRequest::Review)
    } else if str_eq(command, "/plan") {
        Ok(ActionRequest::Plan)
    } else if str_eq(command, "/clean") {
        let mut confirm = false;
        let mut i: usize = 0;
        while i < args.len()
            invariant
                i <= args@.len(),
                confirm == exists|k: int| 0 <= k < i && args@[k]@ == "--confirm"@,
            decreases args.len() - i,
        {
            if str_eq(args[i].as_str(), "--confirm") {
                confirm = true;
            }
            i = i + 1;
        }
        proof {
            assert(confirm == confirms(words.skip(1))) by {
                if confirm {
                    let k = choose|k: int| 0 <= k < args@.len() && args@[k]@ == "--confirm"@;
                    assert(words.skip(1)[k] == args@[k]@);
                }
                if confirms(words.skip(1)) {
                    let k = choose|k: int| 0 <= k < words.skip(1).len() && words.skip(1)[k] == "--confirm"@;
                    assert(words.skip(1)[k] == args@[k]@);
                }
            }
        }
        Ok(ActionRequest::Clean {
            intent: if confirm { CleanupIntent::ExplicitUserConfirmation } else { CleanupIntent::UserRequest },
        })
    } else if str_eq(command, "/restore") {
        Ok(ActionRequest::Restore)
    } else if str_eq(command, "/rules") {
        Ok(ActionRequest::Rules)
    } else if str_eq(command, "/plugins") {
        Ok(ActionRequest::Plugins)
    } else if str_eq(command, "/languages") || str_eq(command, "/lang") {
        Ok(ActionRequest::Languages)
    } else if str_eq(command, "/tasks") {
        Ok(ActionRequest::Tasks)
    } else if str_eq(command, "/export-plan") {
        if args.len() == 0 {
            Ok(ActionRequest::ExportPlan(None))
        } else {
            assert(words.skip(1)[0] == args@[0]@);
            Ok(ActionRequest::ExportPlan(Some(args[0].clone())))
        }
    } else if str_eq(command, "/help") {
        Ok(ActionRequest::Help)
    } else if str_eq(command, "/quit") || str_eq(command, "/q") {
        Ok(ActionRequest::Quit)
    } else {
        Err(AgentError::UnknownCommand { command: command.to_owned() })
    }
}

/// The command that queues an action.
pub open spec fn command_text(action: ActionRequest) -> Seq<char> {
    match action {
        ActionRequest::Scan(_) => "/scan"@,
        ActionRequest::Review => "/review"@,
        ActionRequest::Plan => "/plan"@,
        ActionRequest::Clean { .. } => "/clean"@,
        ActionRequest::Restore => "/restore"@,
        ActionRequest::Rules => "/rules"@,
        ActionRequest::Plugins => "/plugins"@,
        ActionRequest::Languages => "/languages"@,
        ActionRequest::Tasks => "/tasks"@,
        ActionRequest::Usage(_) => "/usage"@,
        ActionRequest::ExportPlan(_) => "/export-plan"@,
        ActionRequest::Help => "/help"@,
        ActionRequest::Quit => "/quit"@,
    }
}

/// The command that queues an action.
pub fn command_name(action: &ActionRequest) -> (res: &'static str)
    ensures
        res@ == command_text(*action),
{
    match action {
        ActionRequest::Scan(_) => "/scan",
        ActionRequest::Review => "/review",
        ActionRequest::Plan => "/plan",
        ActionRequest::Clean { .. } => "/clean",
        ActionRequest::Restore => "/restore",
        ActionRequest::Rules => "/rules",
        ActionRequest::Plugins => "/plugins",
        ActionRequest::Languages => "/languages",
        ActionRequest::Tasks => "/tasks",
        ActionRequest::Usage(_) => "/usage",
        ActionRequest::ExportPlan(_) => "/export-plan",
        ActionRequest::Help => "/help",
        ActionRequest::Quit => "/quit",
    }
}

// ---------------------------------------------------------------- command palette

/// A command shown in the palette.
#[derive(Debug, Clone, Copy, PartialEq, Eq)]
pub struct CommandInfo {
    pub name: &'static str,
    pub description: &'static str,
    pub description_key: &'static str,
    pub requires_scan: bool,
}

/// Every command of the palette, in order, as name, description, description key and whether
/// it needs scan results.
pub open spec fn all_commands() -> Seq<(Seq<char>, Seq<char>, Seq<char>, bool)> {
    seq![
        ("/scan [path...]"@, "Scan current or specified roots"@, "command_scan"@, false),
        ("/scan --global"@, "Scan all known system cleanup locations"@, "command_scan_global"@, false),
        ("/usage [path...]"@, "Scan current or specified roots and show usage"@, "command_usage"@, false),
        ("/usage --global"@, "Scan known system cleanup locations and show usage"@, "command_usage_global"@, false),
        ("/review"@, "Build and show cleanup candidates"@, "command_review"@, true),
        ("/plan"@, "Generate an AI-readable JSON cleanup plan"@, "command_plan"@, true),
        ("/clean"@, "Preview the selected cleanup plan"@, "command_clean"@, true),
        ("/clean --confirm"@, "Move selected items to the system trash"@, "command_clean_confirm"@, true),
        ("/export-plan [path]"@, "Write the current JSON plan to disk"@, "command_export_plan"@, true),
        ("/restore"@, "Restore items from a cleanup run"@, "command_restore"@, false),
        ("/rules"@, "Show active cleanup rules"@, "command_rules"@, false),
        ("/plugins"@, "Show loaded declaration-only plugins"@, "command_plugins"@, false),
        ("/languages"@, "Show loaded language packs"@, "command_languages"@, false),
        ("/tasks"@, "Show task history"@, "command_tasks"@, false),
        ("/help"@, "Show command help"@, "command_help"@, false),
        ("/quit"@, "Quit cleanr"@, "command_quit"@, false)
    ]
}

/// The palette's commands as plain values.
pub open spec fn command_views(v: Seq<CommandInfo>) -> Seq<(Seq<char>, Seq<char>, Seq<char>, bool)> {
    Seq::new(v.len(), |i: int| (v[i].name@, v[i].description@, v[i].description_key@, v[i].requires_scan))
}

fn push_command(v: &mut Vec<CommandInfo>, has_scan_results: bool, name: &'static str, description: &'static str, key: &'static str, requires_scan: bool)
    ensures
        command_views(final(v)@) == if !requires_scan || has_scan_results {
            command_views(old(v)@).push((name@, description@, key@, requires_scan))
        } else {
            command_views(old(v)@)
        },
{
    if !requires_scan || has_scan_results {
        let ghost before = v@;
        v.push(CommandInfo { name, description, description_key: key, requires_scan });
        assert(command_views(v@) =~= command_views(before).push((name@, description@, key@, requires_scan)));
    }
}

proof fn lemma_take_filter<A>(s: Seq<A>, k: int, keep: spec_fn(A) -> bool)
    requires
        0 <= k < s.len(),
    ensures
        s.take(k + 1).filter(keep) == if keep(s[k]) { s.take(k).filter(keep).push(s[k]) } else { s.take(k).filter(keep) },
{
    assert(s.take(k + 1) =~= s.take(k).push(s[k]));
    s.take(k).lemma_filter_push(s[k], keep);
}

/// The commands usable with or without scan results: those that need scan results only once
/// there are some.
pub open spec fn palette(has_scan_results: bool) -> Seq<(Seq<char>, Seq<char>, Seq<char>, bool)> {
    all_commands().filter(usable(has_scan_results))
}

/// A command is usable when it needs no scan results or there are some.
pub open spec fn usable(has_scan_results: bool) -> spec_fn((Seq<char>, Seq<char>, Seq<char>, bool)) -> bool {
    |c: (Seq<char>, Seq<char>, Seq<char>, bool)| !c.3 || has_scan_results
}

/// The commands that can be used now: those that need scan results only once there are some.
pub fn command_palette(has_scan_results: bool) -> (res: Vec<CommandInfo>)
    ensures
        command_views(res@) == palette(has_scan_results),
{
    let ghost keep = |c: (Seq<char>, Seq<char>, Seq<char>, bool)| !c.3 || has_scan_results;
    let ghost all = all_commands();
    let mut v: Vec<CommandInfo> = Vec::new();
    assert(command_views(v@) =~= all.take(0).filter(keep)) by {
        assert(all.take(0) =~= Seq::<(Seq<char>, Seq<char>, Seq<char>, bool)>::empty());
        reveal(Seq::filter);
    }
    push_command(&mut v, has_scan_results, "/scan [path...]", "Scan current or specified roots", "command_scan", false);
    proof {
        lemma_take_filter(all, 0, keep);
        assert(all[0] == ("/scan [path...]"@, "Scan current or specified roots"@, "command_scan"@, false));
    }
    push_command(&mut v, has_scan_results, "/scan --global", "Scan all known system cleanup locations", "command_scan_global", false);
    proof {
        lemma_take_filter(all, 1, keep);
        assert(all[1] == ("/scan --global"@, "Scan all known system cleanup locations"@, "command_scan_global"@, false));
    }
    push_command(&mut v, has_scan_results, "/usage [path...]", "Scan current or specified roots and show usage", "command_usage", false);
    proof {
        lemma_take_filter(all, 2, keep);
        assert(all[2] == ("/usage [path...]"@, "Scan current or specified roots and show usage"@, "command_usage"@, false));
    }
    push_command(&mut v, has_scan_results, "/usage --global", "Scan known system cleanup locations and show usage", "command_usage_global", false);
    proof {
        lemma_take_filter(all, 3, keep);
        assert(all[3] == ("/usage --global"@, "Scan known system cleanup locations and show usage"@, "command_usage_global"@, false));
    }
    push_command(&mut v, has_scan_results, "/review", "Build and show cleanup candidates", "command_review", true);
    proof {
        lemma_take_filter(all, 4, keep);
        assert(all[4] == ("/review"@, "Build and show cleanup candidates"@, "command_review"@, true));
    }
    push_command(&mut v, has_scan_results, "/plan", "Generate an AI-readable JSON cleanup plan", "command_plan", true);
    proof {
        lemma_take_filter(all, 5, keep);
        assert(all[5] == ("/plan"@, "Generate an AI-readable JSON cleanup plan"@, "command_plan"@, true));
    }
    push_command(&mut v, has_scan_results, "/clean", "Preview the selected cleanup plan", "command_clean", true);
    proof {
        lemma_take_filter(all, 6, keep);
        assert(all[6] == ("/clean"@, "Preview the selected cleanup plan"@, "command_clean"@, true));
    }
    push_command(&mut v, has_scan_results, "/clean --confirm", "Move selected items to the system trash", "command_clean_confirm", true);
    proof {
        lemma_take_filter(all, 7, keep);
        assert(all[7] == ("/clean --confirm"@, "Move selected items to the system trash"@, "command_clean_confirm"@, true));
    }
    push_command(&mut v, has_scan_results, "/export-plan [path]", "Write the current JSON plan to disk", "command_export_plan", true);
    proof {
        lemma_take_filter(all, 8, keep);
        assert(all[8] == ("/export-plan [path]"@, "Write the current JSON plan to disk"@, "command_export_plan"@, true));
    }
    push_command(&mut v, has_scan_results, "/restore", "Restore items from a cleanup run", "command_restore", false);
    proof {
        lemma_take_filter(all, 9, keep);
        assert(all[9] == ("/restore"@, "Restore items from a cleanup run"@, "command_restore"@, false));
    }
    push_command(&mut v, has_scan_results, "/rules", "Show active cleanup rules", "command_rules", false);
    proof {
        lemma_take_filter(all, 10, keep);
        assert(all[10] == ("/rules"@, "Show active cleanup rules"@, "command_rules"@, false));
    }
    push_command(&mut v, has_scan_results, "/plugins", "Show loaded declaration-only plugins", "command_plugins", false);
    proof {
        lemma_take_filter(all, 11, keep);
        assert(all[11] == ("/plugins"@, "Show loaded declaration-only plugins"@, "command_plugins"@, false));
    }
    push_command(&mut v, has_scan_results, "/languages", "Show loaded language packs", "command_languages", false);
    proof {
        lemma_take_filter(all, 12, keep);
        assert(all[12] == ("/languages"@, "Show loaded language packs"@, "command_languages"@, false));
    }
    push_command(&mut v, has_scan_results, "/tasks", "Show task history", "command_tasks", false);
    proof {
        lemma_take_filter(all, 13, keep);
        assert(all[13] == ("/tasks"@, "Show task history"@, "command_tasks"@, false));
    }
    push_command(&mut v, has_scan_results, "/help", "Show command help", "command_help", false);
    proof {
        lemma_take_filter(all, 14, keep);
        assert(all[14] == ("/help"@, "Show command help"@, "command_help"@, false));
    }
    push_command(&mut v, has_scan_results, "/quit", "Quit cleanr", "command_quit", false);
    proof {
        lemma_take_filter(all, 15, keep);
        assert(all[15] == ("/quit"@, "Quit cleanr"@, "command_quit"@, false));
    }
    assert(all.take(16) =~= all);
    assert(keep =~= usable(has_scan_results));
    v
}

// ---------------------------------------------------------------- requests and explanations

/// Extra facts about a path being explained.
#[derive(Debug, Clone, PartialEq, Eq)]
pub struct PathContext {
    pub size_bytes: u64,
    pub parent_path: Option<String>,
    pub rule_id: Option<String>,
    pub reason: Option<String>,
}

impl Default for PathContext {
    fn default() -> (res: Self)
        ensures
            res.size_bytes == 0 && res.parent_path is None && res.rule_id is None && res.reason is None,
    {
        PathContext { size_bytes: 0, parent_path: None, rule_id: None, reason: None }
    }
}

/// What the session knows about a path.
#[derive(Debug, Clone, PartialEq, Eq)]
pub struct PathInsight {
    pub item_type: String,
    pub source: String,
    pub meaning: String,
    pub referenced_by: Vec<String>,
    pub risk: String,
    pub advice: String,
}

/// A path insight as plain text: type, source, meaning, referrers, risk and advice.
pub type InsightView = (Seq<char>, Seq<char>, Seq<char>, Seq<Seq<char>>, Seq<char>, Seq<char>);

pub open spec fn insight_view(i: PathInsight) -> InsightView {
    (i.item_type@, i.source@, i.meaning@, word_views(i.referenced_by@), i.risk@, i.advice@)
}

/// The last component of `path` when it is a name (not the root, `.` or `..`); empty otherwise.
pub open spec fn file_name_text(path: Seq<char>) -> Seq<char> {
    let c = components(path);
    if c.len() > 0 && c.last() != seq!['/'] && c.last() != seq!['.'] && c.last() != seq!['.', '.'] {
        c.last()
    } else {
        Seq::empty()
    }
}

/// The parent of `path` written from its components; empty where it has none.
pub open spec fn parent_text(path: Seq<char>) -> Seq<char> {
    let c = components(path);
    if c.len() == 0 || (c.len() == 1 && c[0] == seq!['/']) {
        Seq::empty()
    } else {
        let p = c.drop_last();
        if p.len() > 0 && p[0] == seq!['/'] {
            seq!['/'] + slash_joined(p.skip(1))
        } else {
            slash_joined(p)
        }
    }
}

/// What is known about `path`: well-known directory names first, then words in the path.
pub open spec fn insight_for(path: Seq<char>) -> InsightView {
    let name = file_name_text(path);
    let parent = parent_text(path);
    if name == "node_modules"@ {
        ("dependency directory"@, "npm / yarn / pnpm"@, "JavaScript packages downloaded for the parent project. The project can reinstall them from package.json."@, seq![parent], "low"@, "Safe to remove if the project is not currently being developed."@)
    }     else if name == "target"@ {
        ("build output directory"@, "Cargo / Rust"@, "Compiled Rust artifacts, intermediate files and dependency builds."@, seq![parent], "low"@, "Can be rebuilt with `cargo build`. Safe to delete."@)
    }     else if name == ".next"@ {
        ("framework build output"@, "Next.js"@, "Generated static and server bundles for a Next.js application."@, seq![parent], "low"@, "Recreated by `next build`. Safe to delete."@)
    }     else if name == "DerivedData"@ {
        ("Xcode build cache"@, "Xcode"@, "Compiled indexes, build products and debug symbols for Xcode projects."@, seq!["Xcode projects"@], "low"@, "Xcode will rebuild it automatically. Safe to clean."@)
    }     else if name == ".gradle"@ || name == "build"@ {
        ("Gradle build output"@, "Gradle / Android"@, "Compiled Java/Kotlin/Android classes, resources and intermediate files."@, seq![parent], "low"@, "Recreated on the next build. Safe to delete."@)
    }     else if name == "__pycache__"@ || name == ".pytest_cache"@ || name == ".mypy_cache"@ {
        ("Python cache"@, "Python tooling"@, "Bytecode or type-check cache generated by Python tools."@, seq![parent], "low"@, "Automatically regenerated. Safe to delete."@)
    }     else if name == ".git"@ {
        ("Git repository metadata"@, "Git"@, "Object database, refs and configuration for a Git repository."@, seq!["git commands"@], "high"@, "Do not delete unless you intend to remove version control history."@)
    } else if contains_text(lower_all(path), "cache"@) {
        ("cache directory"@, "unknown"@, "Likely an application cache that can often be rebuilt."@, seq!["unknown"@], "medium"@, "Review the application before deleting."@)
    } else if contains_text(lower_all(path), "log"@) {
        ("log files"@, "unknown"@, "Application or system log output."@, seq!["system / applications"@], "low"@, "Old logs are usually safe to remove if no debugging is needed."@)
    } else {
        ("file or directory"@, "unknown"@, "No specific knowledge about this path."@, Seq::empty(), "medium"@, "Inspect contents manually before cleaning."@)
    }
}

fn insight(item_type: &str, source: &str, meaning: &str, referenced_by: Vec<String>, risk: &str, advice: &str) -> (res: PathInsight)
    ensures
        insight_view(res) == (item_type@, source@, meaning@, word_views(referenced_by@), risk@, advice@),
{
    PathInsight {
        item_type: item_type.to_owned(),
        source: source.to_owned(),
        meaning: meaning.to_owned(),
        referenced_by,
        risk: risk.to_owned(),
        advice: advice.to_owned(),
    }
}

fn one_text(text: &str) -> (res: Vec<String>)
    ensures
        word_views(res@) == seq![text@],
{
    let mut v: Vec<String> = Vec::new();
    v.push(text.to_owned());
    assert(word_views(v@) =~= seq![text@]);
    v
}

fn file_name_string(path: &str) -> (res: String)
    ensures
        res@ == file_name_text(path@),
{
    let comps = path_components(path);
    if comps.len() == 0 {
        return String::new();
    }
    let last = &comps[comps.len() - 1];
    proof {
        reveal_strlit("/");
        reveal_strlit(".");
        reveal_strlit("..");
        assert("/"@ =~= seq!['/']);
        assert("."@ =~= seq!['.']);
        assert(".."@ =~= seq!['.', '.']);
        assert(texts(comps@).last() == last@);
    }
    if crate::text::chars_match(last, "/") || crate::text::chars_match(last, ".") || crate::text::chars_match(last, "..") {
        String::new()
    } else {
        string_from_chars(last.as_slice())
    }
}

fn parent_string(path: &str) -> (res: String)
    ensures
        res@ == parent_text(path@),
{
    let comps = path_components(path);
    let ghost c = texts(comps@);
    proof {
        reveal_strlit("/");
        assert("/"@ =~= seq!['/']);
    }
    if comps.len() == 0 || (comps.len() == 1 && crate::text::chars_match(&comps[0], "/")) {
        return String::new();
    }
    let rooted = crate::text::chars_match(&comps[0], "/") && comps.len() > 1;
    let start: usize = if rooted { 1 } else { 0 };
    let end: usize = comps.len() - 1;
    let ghost p = c.drop_last();
    let ghost body = if rooted { p.skip(1) } else { p };
    let mut out: Vec<char> = Vec::new();
    if rooted {
        out.push('/');
    }
    let ghost prefix = out@;
    let mut k: usize = start;
    assert(body =~= c.subrange(start as int, end as int));
    while k < end
        invariant
            start <= k <= end,
            end == comps@.len() - 1,
            c == texts(comps@),
            body == c.subrange(start as int, end as int),
            out@ == prefix + slash_joined(body.take(k - start)),
        decreases end - k,
    {
        let ghost before = out@;
        if k > start {
            out.push('/');
        }
        let part = &comps[k];
        let mut m: usize = 0;
        let ghost mid = out@;
        while m < part.len()
            invariant
                m <= part@.len(),
                out@ == mid + part@.take(m as int),
            decreases part.len() - m,
        {
            out.push(part[m]);
            assert(mid + part@.take(m + 1) =~= (mid + part@.take(m as int)).push(part@[m as int]));
            m = m + 1;
        }
        proof {
            assert(part@.take(part@.len() as int) =~= part@);
            let t = body.take(k - start + 1);
            assert(t.drop_last() =~= body.take(k - start));
            assert(t.last() == part@);
            if k == start {
                assert(out@ =~= prefix + t[0]);
            } else {
                assert(out@ =~= prefix + (slash_joined(t.drop_last()) + seq!['/'] + t.last()));
            }
        }
        k = k + 1;
    }
    proof {
        assert(body.take(end - start) =~= body);
        if rooted {
            assert(p.len() > 0 && p[0] == c[0]);
        } else {
            if p.len() > 0 {
                assert(p[0] == c[0]);
            }
        }
    }
    string_from_chars(out.as_slice())
}

/// The trimmed `s`: without white space at either end.
pub open spec fn trim_ws(s: Seq<char>) -> Seq<char>
    decreases s.len(),
{
    if s.len() > 0 && is_whitespace(s[0]) {
        trim_ws(s.drop_first())
    } else if s.len() > 0 && is_whitespace(s.last()) {
        trim_ws(s.drop_last())
    } else {
        s
    }
}

/// `s` without white space at either end.
pub fn trim_text(s: &str) -> (res: String)
    ensures
        res@ == trim_ws(s@),
{
    let chars = chars_of(s);
    let mut lo: usize = 0;
    let mut hi: usize = chars.len();
    assert(chars@.subrange(0, chars@.len() as int) =~= chars@);
    while lo < hi && (is_whitespace_char(chars[lo]) || is_whitespace_char(chars[hi - 1]))
        invariant
            lo <= hi <= chars@.len(),
            chars@ == s@,
            trim_ws(s@) == trim_ws(chars@.subrange(lo as int, hi as int)),
        decreases hi - lo,
    {
        let ghost t = chars@.subrange(lo as int, hi as int);
        if is_whitespace_char(chars[lo]) {
            assert(t.drop_first() =~= chars@.subrange(lo + 1, hi as int));
            lo = lo + 1;
        } else {
            assert(t.drop_last() =~= chars@.subrange(lo as int, hi - 1));
            hi = hi - 1;
        }
    }
    let part = vstd::slice::slice_subrange(chars.as_slice(), lo, hi);
    string_from_chars(part)
}

/// The built-in, keyword-driven session assistant.
#[derive(Debug, Clone, Copy, PartialEq, Eq)]
pub struct LocalAgent;

impl Default for LocalAgent {
    fn default() -> (res: Self) {
        LocalAgent
    }
}

/// Plain text that asks for a cleanup: it mentions a cache or cleaning.
pub open spec fn asks_for_cleanup(t: Seq<char>) -> bool {
    let l = lower_all(t);
    contains_text(l, "cache"@) || contains_text(l, "缓存"@) || contains_text(l, "clean"@) || contains_text(l, "清理"@)
}

impl LocalAgent {
    /// Explain a path from its name, or from words in it.
    pub fn explain_path(&self, path: &str, context: &PathContext) -> (res: PathInsight)
        ensures
            insight_view(res) == insight_for(path@),
    {
        let name_string = file_name_string(path);
        let name = name_string.as_str();
        let parent = parent_string(path);
        if str_eq(name, "node_modules") {
            return insight("dependency directory", "npm / yarn / pnpm", "JavaScript packages downloaded for the parent project. The project can reinstall them from package.json.", one_text(parent.as_str()), "low", "Safe to remove if the project is not currently being developed.");
        }
        if str_eq(name, "target") {
            return insight("build output directory", "Cargo / Rust", "Compiled Rust artifacts, intermediate files and dependency builds.", one_text(parent.as_str()), "low", "Can be rebuilt with `cargo build`. Safe to delete.");
        }
        if str_eq(name, ".next") {
            return insight("framework build output", "Next.js", "Generated static and server bundles for a Next.js application.", one_text(parent.as_str()), "low", "Recreated by `next build`. Safe to delete.");
        }
        if str_eq(name, "DerivedData") {
            return insight("Xcode build cache", "Xcode", "Compiled indexes, build products and debug symbols for Xcode projects.", one_text("Xcode projects"), "low", "Xcode will rebuild it automatically. Safe to clean.");
        }
        if str_eq(name, ".gradle") || str_eq(name, "build") {
            return insight("Gradle build output", "Gradle / Android", "Compiled Java/Kotlin/Android classes, resources and intermediate files.", one_text(parent.as_str()), "low", "Recreated on the next build. Safe to delete.");
        }
        if str_eq(name, "__pycache__") || str_eq(name, ".pytest_cache") || str_eq(name, ".mypy_cache") {
            return insight("Python cache", "Python tooling", "Bytecode or type-check cache generated by Python tools.", one_text(parent.as_str()), "low", "Automatically regenerated. Safe to delete.");
        }
        if str_eq(name, ".git") {
            return insight("Git repository metadata", "Git", "Object database, refs and configuration for a Git repository.", one_text("git commands"), "high", "Do not delete unless you intend to remove version control history.");
        }
        let lowered = to_ascii_lowercase(path);
        let mut needle: Vec<char> = chars_of("cache");
        if contains_chars(&lowered, &needle) {
            return insight("cache directory", "unknown", "Likely an application cache that can often be rebuilt.", one_text("unknown"), "medium", "Review the application before deleting.");
        }
        let mut needle: Vec<char> = chars_of("log");
        if contains_chars(&lowered, &needle) {
            return insight("log files", "unknown", "Application or system log output.", one_text("system / applications"), "low", "Old logs are usually safe to remove if no debugging is needed.");
        }
        insight("file or directory", "unknown", "No specific knowledge about this path.", Vec::new(), "medium", "Inspect contents manually before cleaning.")
    }

    /// Answer one line of input: a slash command is parsed and queued; plain text that asks
    /// for a cleanup queues a scan and the review; anything else queues help.
    pub fn interpret(&self, input: &str) -> (res: Result<AgentResponse, AgentError>)
        ensures
            ({
                let t = trim_ws(input@);
                if t.len() > 0 && t[0] == '/' {
                    match split_words(t) {
                        Err(q) => res == Err::<AgentResponse, AgentError>(AgentError::UnterminatedQuote { quote: q }),
                        Ok(words) => match res {
                            Ok(r) => r.actions@.len() == 1 && command_parses(Ok(r.actions@[0]), words)
                                && r.message@ == "queued "@ + command_text(r.actions@[0]),
                            Err(e) => command_parses(Err(e), words),
                        },
                    }
                } else if asks_for_cleanup(t) {
                    res matches Ok(r) && r.message@ == "I'll scan the current root and open the review plan."@
                        && r.actions@.len() == 2 && (r.actions@[0] matches ActionRequest::Scan(req) && request_is(req, Seq::empty(), false, Seq::empty()))
                        && r.actions@[1] == ActionRequest::Review
                } else {
                    res matches Ok(r) && r.message@ == "Try /scan, /review, /plan, or /help."@ && r.actions@ == seq![ActionRequest::Help]
                }
            }),
    {
        let trimmed = trim_text(input);
        let chars = chars_of(trimmed.as_str());
        if chars.len() > 0 && chars[0] == '/' {
            let action = parse_slash_command(trimmed.as_str())?;
            let message = concat("queued ", command_name(&action));
            let mut actions: Vec<ActionRequest> = Vec::new();
            actions.push(action);
            return Ok(AgentResponse { message, actions });
        }
        let lowered = to_ascii_lowercase(trimmed.as_str());
        let cache = chars_of("cache");
        let cache_zh = chars_of("缓存");
        let clean = chars_of("clean");
        let clean_zh = chars_of("清理");
        if contains_chars(&lowered, &cache) || contains_chars(&lowered, &cache_zh) || contains_chars(&lowered, &clean)
            || contains_chars(&lowered, &clean_zh) {
            let mut actions: Vec<ActionRequest> = Vec::new();
            let request = ScanRequest::default();
            proof {
                assert(word_views(request.paths@) =~= Seq::<Seq<char>>::empty());
                assert(canonical_kinds(Seq::empty()) =~= Seq::<GlobalScanKind>::empty()) by {
                    assert forall|k: GlobalScanKind| !Seq::<GlobalScanKind>::empty().contains(k) by {}
                    lemma_filter_none(all_global_kinds(), |k: GlobalScanKind| Seq::<GlobalScanKind>::empty().contains(k));
                }
            }
            proof {
                assert(request.global_kinds@ =~= canonical_kinds(Seq::empty()));
                assert(request_is(request, Seq::empty(), false, Seq::empty()));
            }
            let ghost req_copy = request;
            actions.push(ActionRequest::Scan(request));
            actions.push(ActionRequest::Review);
            assert(actions@[0] == ActionRequest::Scan(req_copy));
            return Ok(AgentResponse { message: "I'll scan the current root and open the review plan.".to_owned(), actions });
        }
        let mut actions: Vec<ActionRequest> = Vec::new();
        actions.push(ActionRequest::Help);
        assert(actions@ =~= seq![ActionRequest::Help]);
        Ok(AgentResponse { message: "Try /scan, /review, /plan, or /help.".to_owned(), actions })
    }
}

proof fn lemma_filter_none<A>(s: Seq<A>, keep: spec_fn(A) -> bool)
    requires
        forall|x: A| !#[trigger] keep(x),
    ensures
        s.filter(keep) == Seq::<A>::empty(),
    decreases s.len(),
{
    if s.len() > 0 {
        lemma_filter_none(s.drop_last(), keep);
        assert(s.drop_last().push(s.last()) =~= s);
        s.drop_last().lemma_filter_push(s.last(), keep);
    } else {
        reveal(Seq::filter);
    }
}

} // verus!
