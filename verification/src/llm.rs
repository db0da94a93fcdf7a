//! The language-model assistant's side of a session: the prompts it is sent, how its answer is
//! unwrapped, and how the actions it names become session actions.
//!
//! Asking the model is the caller's work; what is decided here is what it is asked and what its
//! answer means.
use vstd::prelude::*;

use crate::agent::{command_name, command_text, trim_text, trim_ws, ActionRequest, CleanupIntent, PathContext};
use crate::model::ScanRequest;
use crate::plugin::comma_joined;
use crate::text::{chars_of, concat, decimal, decimal_text, string_from_chars};

verus! {

/// An action as the model names it.
#[derive(Debug, Clone, PartialEq, Eq)]
pub enum LlmAction {
    Scan { paths: Vec<String> },
    Review,
    Plan,
    Clean,
    Restore,
    Rules,
    Plugins,
    Languages,
    Tasks,
    Usage { paths: Vec<String> },
    ExportPlan { path: Option<String> },
    Help,
    Quit,
}

/// A request that scans exactly `paths`, without a global part.
pub open spec fn scans_paths(r: ScanRequest, paths: Vec<String>) -> bool {
    r.paths@ == paths@ && !r.include_global && r.global_kinds@.len() == 0 && r.inactive_days is None
}

/// `res` is the session action for the model action `action`. A cleanup the model asks for is
/// only a request: the user must still confirm it.
pub open spec fn queues(res: ActionRequest, action: LlmAction) -> bool {
    match action {
        LlmAction::Scan { paths } => res matches ActionRequest::Scan(r) && scans_paths(r, paths),
        LlmAction::Review => res == ActionRequest::Review,
        LlmAction::Plan => res == ActionRequest::Plan,
        LlmAction::Clean => res == (ActionRequest::Clean { intent: CleanupIntent::AgentRequest }),
        LlmAction::Restore => res == ActionRequest::Restore,
        LlmAction::Rules => res == ActionRequest::Rules,
        LlmAction::Plugins => res == ActionRequest::Plugins,
        LlmAction::Languages => res == ActionRequest::Languages,
        LlmAction::Tasks => res == ActionRequest::Tasks,
        LlmAction::Usage { paths } => res matches ActionRequest::Usage(r) && scans_paths(r, paths),
        LlmAction::ExportPlan { path } => res == ActionRequest::ExportPlan(path),
        LlmAction::Help => res == ActionRequest::Help,
        LlmAction::Quit => res == ActionRequest::Quit,
    }
}

impl LlmAction {
    /// The session action this model action queues.
    pub fn into_action_request(self) -> (res: ActionRequest)
        ensures
            queues(res, self),
    {
        match self {
            LlmAction::Scan { paths } => ActionRequest::Scan(ScanRequest::paths(paths)),
            LlmAction::Review => ActionRequest::Review,
            LlmAction::Plan => ActionRequest::Plan,
            LlmAction::Clean => ActionRequest::Clean { intent: CleanupIntent::AgentRequest },
            LlmAction::Restore => ActionRequest::Restore,
            LlmAction::Rules => ActionRequest::Rules,
            LlmAction::Plugins => ActionRequest::Plugins,
            LlmAction::Languages => ActionRequest::Languages,
            LlmAction::Tasks => ActionRequest::Tasks,
            LlmAction::Usage { paths } => ActionRequest::Usage(ScanRequest::paths(paths)),
            LlmAction::ExportPlan { path } => ActionRequest::ExportPlan(path),
            LlmAction::Help => ActionRequest::Help,
            LlmAction::Quit => ActionRequest::Quit,
        }
    }
}

/// The session actions for a list of model actions, in order.
pub fn into_action_requests(actions: Vec<LlmAction>) -> (res: Vec<ActionRequest>)
    ensures
        res@.len() == actions@.len(),
        forall|i: int| 0 <= i < actions@.len() ==> #[trigger] queues(res@[i], actions@[i]),
{
    let ghost input = actions@;
    let mut rest = actions;
    let mut reversed: Vec<LlmAction> = Vec::new();
    while rest.len() > 0
        invariant
            reversed@.len() + rest@.len() == input.len(),
            rest@ == input.take(rest@.len() as int),
            forall|k: int| 0 <= k < reversed@.len() ==> #[trigger] reversed@[k] == input[input.len() - 1 - k],
        decreases rest.len(),
    {
        let a = rest.pop().unwrap();
        reversed.push(a);
        assert(rest@ =~= input.take(rest@.len() as int));
    }
    let mut res: Vec<ActionRequest> = Vec::new();
    while reversed.len() > 0
        invariant
            res@.len() + reversed@.len() == input.len(),
            forall|k: int| 0 <= k < reversed@.len() ==> #[trigger] reversed@[k] == input[input.len() - 1 - k],
            forall|i: int| 0 <= i < res@.len() ==> #[trigger] queues(res@[i], input[i]),
        decreases reversed.len(),
    {
        let a = reversed.pop().unwrap();
        res.push(a.into_action_request());
    }
    res
}

// ---------------------------------------------------------------- the model's answer

/// `s` without every trailing repetition of three backticks.
pub open spec fn without_trailing_fences(s: Seq<char>) -> Seq<char>
    decreases s.len(),
{
    if s.len() >= 3 && s.subrange(s.len() - 3, s.len() as int) == "```"@ {
        without_trailing_fences(s.subrange(0, s.len() - 3))
    } else {
        s
    }
}

/// The answer inside a Markdown code fence, `json` or bare, trimmed; an unfenced answer
/// trimmed.
pub open spec fn fenced_body(s: Seq<char>) -> Seq<char> {
    let t = trim_ws(s);
    if t.len() >= 7 && t.take(7) == "```json"@ {
        trim_ws(without_trailing_fences(t.skip(7)))
    } else if t.len() >= 3 && t.take(3) == "```"@ {
        trim_ws(without_trailing_fences(t.skip(3)))
    } else {
        t
    }
}

/// Whether `s` holds `prefix` at its start.
fn has_prefix(s: &Vec<char>, prefix: &str) -> (res: bool)
    ensures
        res == (s@.len() >= prefix@.len() && s@.take(prefix@.len() as int) == prefix@),
{
    let p = chars_of(prefix);
    if s.len() < p.len() {
        return false;
    }
    let mut i: usize = 0;
    while i < p.len()
        invariant
            i <= p@.len() <= s@.len(),
            p@ == prefix@,
            forall|k: int| 0 <= k < i ==> s@[k] == p@[k],
        decreases p.len() - i,
    {
        if s[i] != p[i] {
            assert(s@.take(p@.len() as int)[i as int] != prefix@[i as int]);
            return false;
        }
        i = i + 1;
    }
    assert(s@.take(p@.len() as int) =~= prefix@);
    true
}

/// `chars` from `from` on, without every trailing repetition of three backticks.
fn strip_trailing_fences(chars: &Vec<char>, from: usize) -> (res: String)
    requires
        from <= chars@.len(),
    ensures
        res@ == without_trailing_fences(chars@.skip(from as int)),
{
    let ghost body = chars@.skip(from as int);
    let mut end: usize = chars.len();
    assert(chars@.subrange(from as int, end as int) =~= body);
    while end - from >= 3 && chars[end - 1] == '`' && chars[end - 2] == '`' && chars[end - 3] == '`'
        invariant
            from <= end <= chars@.len(),
            without_trailing_fences(body) == without_trailing_fences(chars@.subrange(from as int, end as int)),
        decreases end,
    {
        proof {
            reveal_strlit("```");
            let t = chars@.subrange(from as int, end as int);
            assert(t.subrange(t.len() - 3, t.len() as int) =~= "```"@);
            assert(t.subrange(0, t.len() - 3) =~= chars@.subrange(from as int, end - 3));
        }
        end = end - 3;
    }
    proof {
        reveal_strlit("```");
        let t = chars@.subrange(from as int, end as int);
        if t.len() >= 3 {
            assert(t.subrange(t.len() - 3, t.len() as int) != "```"@) by {
                if t.subrange(t.len() - 3, t.len() as int) == "```"@ {
                    assert(t.subrange(t.len() - 3, t.len() as int)[0] == chars@[end - 3]);
                    assert(t.subrange(t.len() - 3, t.len() as int)[1] == chars@[end - 2]);
                    assert(t.subrange(t.len() - 3, t.len() as int)[2] == chars@[end - 1]);
                }
            }
        }
    }
    let part = vstd::slice::slice_subrange(chars.as_slice(), from, end);
    string_from_chars(part)
}

/// The answer of the model without the Markdown code fence it may be wrapped in.
pub fn strip_markdown_fences(s: &str) -> (res: String)
    ensures
        res@ == fenced_body(s@),
{
    let trimmed = trim_text(s);
    let chars = chars_of(trimmed.as_str());
    if has_prefix(&chars, "```json") {
        proof {
            reveal_strlit("```json");
        }
        let inner = strip_trailing_fences(&chars, 7);
        trim_text(inner.as_str())
    } else if has_prefix(&chars, "```") {
        proof {
            reveal_strlit("```json");
            reveal_strlit("```");
        }
        let inner = strip_trailing_fences(&chars, 3);
        trim_text(inner.as_str())
    } else {
        proof {
            reveal_strlit("```json");
            reveal_strlit("```");
        }
        trimmed
    }
}

// ---------------------------------------------------------------- prompts

/// The request sent to the model for a line of user input.
pub open spec fn user_prompt_text(input: Seq<char>) -> Seq<char> {
    "User request: \""@ + input
        + "\"\n\nRespond with a JSON array of actions. Empty paths mean use the current directory."@
}

/// The request sent to the model for a line of user input.
pub fn build_user_prompt(input: &str) -> (res: String)
    ensures
        res@ == user_prompt_text(input@),
{
    let head = concat("User request: \"", input);
    concat(head.as_str(), "\"\n\nRespond with a JSON array of actions. Empty paths mean use the current directory.")
}

/// A text that may be absent, with `fallback` in its place.
pub open spec fn or_text(value: Option<String>, fallback: Seq<char>) -> Seq<char> {
    match value {
        Some(v) => v@,
        None => fallback,
    }
}

/// The request sent to the model to explain the path `path` found with `context`.
pub open spec fn explain_prompt_text(path: Seq<char>, context: PathContext) -> Seq<char> {
    "Path: "@ + path + "\nParent: "@ + or_text(context.parent_path, Seq::empty()) + "\nSize: "@
        + decimal_text(context.size_bytes as nat) + " bytes\nMatched rule: "@ + or_text(context.rule_id, "unknown"@)
        + "\nRule reason: "@ + or_text(context.reason, "unknown"@) + "\n\nExplain this path."@
}

fn or_default<'a>(value: &'a Option<String>, fallback: &'a str) -> (res: &'a str)
    ensures
        res@ == or_text(*value, fallback@),
{
    match value {
        Some(v) => v.as_str(),
        None => fallback,
    }
}

/// The request sent to the model to explain the path `path` found with `context`.
pub fn build_explain_prompt(path: &str, context: &PathContext) -> (res: String)
    ensures
        res@ == explain_prompt_text(path@, *context),
{
    proof {
        reveal_strlit("");
    }
    let parent = or_default(&context.parent_path, "");
    let rule_id = or_default(&context.rule_id, "unknown");
    let reason = or_default(&context.reason, "unknown");
    let size = decimal(context.size_bytes);
    let a = concat("Path: ", path);
    let b = concat(a.as_str(), "\nParent: ");
    let c = concat(b.as_str(), parent);
    let d = concat(c.as_str(), "\nSize: ");
    let e = concat(d.as_str(), size.as_str());
    let f = concat(e.as_str(), " bytes\nMatched rule: ");
    let g = concat(f.as_str(), rule_id);
    let h = concat(g.as_str(), "\nRule reason: ");
    let i = concat(h.as_str(), reason);
    concat(i.as_str(), "\n\nExplain this path.")
}

/// The commands of `actions`, in order.
pub open spec fn command_texts(actions: Seq<ActionRequest>) -> Seq<Seq<char>> {
    Seq::new(actions.len(), |i: int| command_text(actions[i]))
}

/// The message shown for the actions the model named: their commands, or that none was
/// recognized, with the model's name.
pub open spec fn summary_text(actions: Seq<ActionRequest>, model: Seq<char>) -> Seq<char> {
    if actions.len() == 0 {
        "No action recognized (model: "@ + model + ")."@
    } else {
        comma_joined(command_texts(actions)) + " (model: "@ + model + ")"@
    }
}

/// The message shown for the actions the model named.
pub fn summarize(actions: &[ActionRequest], model: &str) -> (res: String)
    ensures
        res@ == summary_text(actions@, model@),
{
    if actions.len() == 0 {
        let head = concat("No action recognized (model: ", model);
        return concat(head.as_str(), ").");
    }
    let mut names = String::new();
    let mut i: usize = 0;
    proof {
        reveal_strlit("");
    }
    while i < actions.len()
        invariant
            i <= actions@.len(),
            actions@.len() > 0,
            names@ == comma_joined(command_texts(actions@.take(i as int))),
        decreases actions.len() - i,
    {
        let name = command_name(&actions[i]);
        proof {
            let t = actions@.take(i + 1);
            assert(command_texts(t).drop_last() =~= command_texts(actions@.take(i as int)));
            assert(command_texts(t).last() == command_text(actions@[i as int]));
        }
        let ghost ct = command_texts(actions@.take(i + 1));
        if i == 0 {
            names = concat("", name);
            proof {
                reveal_strlit("");
                assert(ct =~= seq![command_text(actions@[0])]);
                assert(names@ =~= name@);
            }
        } else {
            let ghost before = names@;
            let with_comma = concat(names.as_str(), ", ");
            names = concat(with_comma.as_str(), name);
            proof {
                assert(ct.len() == i + 1);
                assert(comma_joined(ct) == comma_joined(ct.drop_last()) + ", "@ + ct.last());
                assert(names@ =~= before + ", "@ + name@);
            }
        }
        i = i + 1;
    }
    assert(actions@.take(actions@.len() as int) =~= actions@);
    let a = concat(names.as_str(), " (model: ");
    let b = concat(a.as_str(), model);
    concat(b.as_str(), ")")
}

} // verus!
