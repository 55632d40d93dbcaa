//! What the server exchanges with its clients: tool requests and results,
//! prompt texts and progress messages.

use vstd::prelude::*;
use std::time::Duration;
use crate::text::{chars_of, string_of, decimal, digits_value, is_digit, lemma_decimal_reads_back, push_decimal};

verus! {

/// Result from an inspection.
#[derive(Debug)]
pub struct InspectResult {
    /// Version of the kernel.
    pub kernel_version: String,
    /// Time elapsed since boot.
    pub system_uptime: Duration,
}

impl InspectResult {
    /// The result of an inspection that found this kernel version and
    /// uptime.
    pub fn new(kernel_version: String, system_uptime: Duration) -> (r: InspectResult)
        ensures
            r.kernel_version == kernel_version,
            r.system_uptime == system_uptime,
    {
        InspectResult { kernel_version, system_uptime }
    }
}

/// Request for command execution.
#[derive(Debug)]
pub struct ExecuteRequest {
    /// Command to execute.
    command: String,
    /// Arguments for the command.
    arguments: Vec<String>,
}

impl ExecuteRequest {
    pub closed spec fn spec_command(&self) -> Seq<char> {
        self.command@
    }

    pub closed spec fn spec_arguments(&self) -> Seq<String> {
        self.arguments@
    }

    /// A request to run `command` with `arguments`.
    pub fn new(command: String, arguments: Vec<String>) -> (r: ExecuteRequest)
        ensures
            r.spec_command() == command@,
            r.spec_arguments() == arguments@,
    {
        ExecuteRequest { command, arguments }
    }

    /// The command and its arguments.
    pub fn into_parts(self) -> (r: (String, Vec<String>))
        ensures
            r.0@ == self.spec_command(),
            r.1@ == self.spec_arguments(),
    {
        (self.command, self.arguments)
    }
}

/// Result from a command execution.
#[derive(Debug)]
pub struct ExecuteResult {
    /// Command exit code.
    code: i32,
    /// Command standard output.
    stdout: String,
    /// Command standard error.
    stderr: String,
}

impl ExecuteResult {
    pub closed spec fn spec_code(&self) -> i32 {
        self.code
    }

    pub closed spec fn spec_stdout(&self) -> Seq<char> {
        self.stdout@
    }

    pub closed spec fn spec_stderr(&self) -> Seq<char> {
        self.stderr@
    }

    /// The result of a program that exited with `code` and wrote `stdout`
    /// and `stderr`.
    pub fn new(code: i32, stdout: String, stderr: String) -> (r: ExecuteResult)
        ensures
            r.spec_code() == code,
            r.spec_stdout() == stdout@,
            r.spec_stderr() == stderr@,
    {
        ExecuteResult { code, stdout, stderr }
    }

    /// The exit code, the standard output and the standard error.
    pub fn into_parts(self) -> (r: (i32, String, String))
        ensures
            r.0 == self.spec_code(),
            r.1@ == self.spec_stdout(),
            r.2@ == self.spec_stderr(),
    {
        (self.code, self.stdout, self.stderr)
    }
}

/// Result from an upgrade operation.
#[derive(Debug)]
pub struct UpgradeResult {
    /// Whether the upgrade completed successfully or not.
    completed: bool,
}

impl UpgradeResult {
    pub closed spec fn spec_completed(&self) -> bool {
        self.completed
    }

    /// The result of an upgrade that ran to its end.
    pub fn finished() -> (r: UpgradeResult)
        ensures
            r.spec_completed(),
    {
        UpgradeResult { completed: true }
    }

    /// A result that says whether the upgrade completed.
    pub fn new(completed: bool) -> (r: UpgradeResult)
        ensures
            r.spec_completed() == completed,
    {
        UpgradeResult { completed }
    }

    /// Whether the upgrade completed successfully.
    pub fn completed(&self) -> (r: bool)
        ensures
            r == self.spec_completed(),
    {
        self.completed
    }
}

/// Arguments for the artifex_execute prompt.
#[derive(Debug)]
pub struct ExecutePromptArgs {
    /// Program to execute.
    pub command: String,
    /// Optional arguments to pass to the program.
    pub arguments: Vec<String>,
}

/// The instructions the server gives to its clients.
pub fn instructions() -> (r: String)
    ensures
        r@ == "This server provides Artifex Engine tools. Tools: inspect"@,
{
    String::from_str("This server provides Artifex Engine tools. Tools: inspect")
}

/// Text of the prompt that asks to inspect the host and summarize.
pub fn artifex_inspect() -> (r: String)
    ensures
        r@ == "Use the 'inspect' tool to retrieve the kernel version and system uptime. Then summarize the results in 1–2 sentences."@,
{
    String::from_str(
        "Use the 'inspect' tool to retrieve the kernel version and system uptime. Then summarize the results in 1–2 sentences.",
    )
}

/// Text of the prompt that asks to start an upgrade and follow its
/// progress.
pub fn artifex_upgrade() -> (r: String)
    ensures
        r@ == "Call the 'upgrade' tool and wait for completion. The server streams progress updates; report final status concisely when done."@,
{
    String::from_str(
        "Call the 'upgrade' tool and wait for completion. The server streams progress updates; report final status concisely when done.",
    )
}

/// The `Debug` rendering of a list of strings, as `format!("{:?}", list)`
/// writes it.
pub uninterp spec fn debug_strings(items: Seq<Seq<char>>) -> Seq<char>;

/// `c` is written as itself by `Debug` inside a string: printable ASCII
/// other than `"` and `\`.
pub open spec fn is_plain_char(c: char) -> bool {
    ' ' <= c && c <= '~' && c != '"' && c != '\\'
}

/// Every character of `s` is written as itself by `Debug`.
pub open spec fn is_plain(s: Seq<char>) -> bool {
    forall|i: int| 0 <= i < s.len() ==> is_plain_char(#[trigger] s[i])
}

/// `s` between double quotes.
pub open spec fn quoted(s: Seq<char>) -> Seq<char> {
    seq!['"'] + s + seq!['"']
}

/// `q` is a way `Debug` may write the string `s`: between double quotes,
/// and `s` itself between them when `s` is plain.
pub open spec fn is_debug_quoted(q: Seq<char>, s: Seq<char>) -> bool {
    &&& q.len() >= 2
    &&& q[0] == '"'
    &&& q.last() == '"'
    &&& is_plain(s) ==> q == quoted(s)
}

/// The parts joined by `", "`.
pub open spec fn join_list(parts: Seq<Seq<char>>) -> Seq<char>
    decreases parts.len(),
{
    if parts.len() == 0 {
        Seq::empty()
    } else if parts.len() == 1 {
        parts[0]
    } else {
        join_list(parts.drop_last()) + seq![',', ' '] + parts.last()
    }
}

/// How `Debug` writes one string `s`: its rendering as a list of one item,
/// without the brackets.
pub open spec fn item_rendering(s: Seq<char>) -> Seq<char> {
    debug_strings(seq![s]).subrange(1, debug_strings(seq![s]).len() - 1)
}

/// The rendering of a list of arguments: each argument as `Debug` writes
/// it, in order, joined by `", "` between brackets.
pub open spec fn render_arguments(items: Seq<Seq<char>>) -> Seq<char> {
    seq!['['] + join_list(items.map_values(|s: Seq<char>| item_rendering(s))) + seq![']']
}

/// The rendering of a list of plain arguments: each argument quoted, in
/// order, joined by `", "` between brackets.
pub open spec fn plain_rendering(items: Seq<Seq<char>>) -> Seq<char> {
    seq!['['] + join_list(items.map_values(|s: Seq<char>| quoted(s))) + seq![']']
}

/// Renders `items` with `format!("{:?}", items)` (std's `Debug` for
/// `Vec<String>`). Claimed: the text depends on the strings alone
/// (`debug_strings`); it is the items, each between double quotes (and
/// unchanged between them when made of printable ASCII other than `"` and
/// `\`), joined by `", "` between brackets. How other characters are
/// escaped stays unsaid.
#[verifier::external_body]
fn debug_list(items: &Vec<String>) -> (r: String)
    ensures
        r@ == debug_strings(items@.map_values(|s: String| s@)),
        exists|parts: Seq<Seq<char>>|
            #![trigger join_list(parts)]
            parts.len() == items@.len() && r@ == seq!['['] + join_list(parts) + seq![']']
                && forall|i: int| 0 <= i < parts.len() ==> is_debug_quoted(#[trigger] parts[i], items@[i]@),
{
    format!("{:?}", items)
}

/// Renders the arguments one by one, joined by `", "` between brackets.
fn render_list(items: &Vec<String>) -> (r: String)
    ensures
        r@ == render_arguments(items@.map_values(|s: String| s@)),
        forall|i: int|
            0 <= i < items@.len() ==> is_debug_quoted(
                #[trigger] item_rendering(items@[i]@),
                items@[i]@,
            ),
{
    let ghost v = items@.map_values(|s: String| s@);
    let mut r = String::from_str("[");
    proof {
        reveal_strlit("[");
        assert(v.take(0).map_values(|s: Seq<char>| item_rendering(s)) =~= Seq::<Seq<char>>::empty());
        assert(r@ =~= seq!['['] + join_list(v.take(0).map_values(|s: Seq<char>| item_rendering(s))));
    }
    let mut i: usize = 0;
    while i < items.len()
        invariant
            v == items@.map_values(|s: String| s@),
            i <= items@.len(),
            r@ == seq!['['] + join_list(v.take(i as int).map_values(|s: Seq<char>| item_rendering(s))),
            forall|j: int| 0 <= j < i ==> is_debug_quoted(#[trigger] item_rendering(items@[j]@), items@[j]@),
        decreases items@.len() - i,
    {
        if i > 0 {
            r.append(", ");
        }
        let mut one: Vec<String> = Vec::new();
        one.push(items[i].clone());
        let rendered = debug_list(&one);
        let cs = chars_of(rendered.as_str());
        proof {
            let ov = one@.map_values(|s: String| s@);
            assert(ov =~= seq![v[i as int]]);
            let parts = choose|parts: Seq<Seq<char>>|
                #![trigger join_list(parts)]
                parts.len() == one@.len() && rendered@ == seq!['['] + join_list(parts) + seq![']']
                    && forall|t: int| 0 <= t < parts.len() ==> is_debug_quoted(#[trigger] parts[t], one@[t]@);
            assert(join_list(parts) == parts[0]);
            assert(is_debug_quoted(parts[0], one@[0]@));
            assert(cs@.subrange(1, cs@.len() - 1) =~= parts[0]);
            assert(item_rendering(v[i as int]) == parts[0]);
        }
        let n = cs.len();
        let q = string_of(&cs, 1, n - 1);
        r.append(q.as_str());
        proof {
            let f = |s: Seq<char>| item_rendering(s);
            assert(v.take(i + 1).map_values(f) =~= v.take(i as int).map_values(f).push(item_rendering(v[i as int])));
            if i > 0 {
                assert(v.take(i + 1).map_values(f).drop_last() =~= v.take(i as int).map_values(f));
            } else {
                assert(v.take(i + 1).map_values(f) =~= seq![item_rendering(v[i as int])]);
            }
            assert(", "@ == seq![',', ' ']) by { reveal_strlit(", "); }
            assert(r@ =~= seq!['['] + join_list(v.take(i + 1).map_values(f)));
        }
        i = i + 1;
    }
    r.append("]");
    proof {
        assert(v.take(i as int) =~= v);
        assert("]"@ == seq![']']) by { reveal_strlit("]"); }
        assert(r@ =~= render_arguments(v));
    }
    r
}

/// The rendering of a list of arguments keeps every argument, in order:
/// a one-item list is that item as `Debug` writes it between brackets, and
/// one more argument adds `", "` and that argument before the closing
/// bracket. For plain arguments, each stands quoted as it is.
pub proof fn lemma_rendering_keeps_each_argument(items: Seq<Seq<char>>, x: Seq<char>)
    ensures
        render_arguments(seq![x]) == seq!['['] + item_rendering(x) + seq![']'],
        items.len() > 0 ==> render_arguments(items.push(x)) == render_arguments(items).drop_last()
            + seq![',', ' '] + item_rendering(x) + seq![']'],
        plain_rendering(seq![x]) == seq!['[', '"'] + x + seq!['"', ']'],
        items.len() > 0 ==> plain_rendering(items.push(x)) == plain_rendering(items).drop_last()
            + seq![',', ' ', '"'] + x + seq!['"', ']'],
{
    let f = |s: Seq<char>| item_rendering(s);
    let g = |s: Seq<char>| quoted(s);
    assert(seq![x].map_values(f) =~= seq![item_rendering(x)]);
    assert(seq![x].map_values(g) =~= seq![quoted(x)]);
    assert(render_arguments(seq![x]) =~= seq!['['] + item_rendering(x) + seq![']']);
    assert(plain_rendering(seq![x]) =~= seq!['[', '"'] + x + seq!['"', ']']);
    if items.len() > 0 {
        assert(items.push(x).map_values(f) =~= items.map_values(f).push(item_rendering(x)));
        assert(items.push(x).map_values(f).drop_last() =~= items.map_values(f));
        assert(items.push(x).map_values(g) =~= items.map_values(g).push(quoted(x)));
        assert(items.push(x).map_values(g).drop_last() =~= items.map_values(g));
        let ra = render_arguments(items);
        assert(ra.drop_last() =~= seq!['['] + join_list(items.map_values(f)));
        assert(render_arguments(items.push(x)) =~= ra.drop_last() + seq![',', ' '] + item_rendering(x) + seq![']']);
        let pa = plain_rendering(items);
        assert(pa.drop_last() =~= seq!['['] + join_list(items.map_values(g)));
        assert(plain_rendering(items.push(x)) =~= pa.drop_last() + seq![',', ' ', '"'] + x + seq!['"', ']']);
    }
}

/// Plain arguments are rendered each between double quotes, as they are.
proof fn lemma_plain_items_render_quoted(items: Seq<Seq<char>>)
    requires
        forall|i: int| 0 <= i < items.len() ==> is_plain(#[trigger] items[i]),
        forall|i: int| 0 <= i < items.len() ==> is_debug_quoted(#[trigger] item_rendering(items[i]), items[i]),
    ensures
        render_arguments(items) == plain_rendering(items),
{
    let f = |s: Seq<char>| item_rendering(s);
    let g = |s: Seq<char>| quoted(s);
    assert forall|i: int| 0 <= i < items.len() implies items.map_values(f)[i] == items.map_values(g)[i] by {
        assert(is_debug_quoted(item_rendering(items[i]), items[i]));
        assert(is_plain(items[i]));
    }
    assert(items.map_values(f) =~= items.map_values(g));
}

/// Text of the prompt that asks to run `command`, with the rendering of its
/// arguments when there are any.
pub open spec fn execute_prompt_text(command: Seq<char>, rendered_arguments: Option<Seq<char>>) -> Seq<char> {
    "Use the 'execute' tool to run '"@ + command + "'"@ + match rendered_arguments {
        Some(r) => " with arguments "@ + r,
        None => Seq::empty(),
    } + ". Capture stdout and stderr. Return a concise summary and include short outputs."@
}

/// Whenever arguments are given, the prompt names the command and then
/// carries " with arguments " followed by their whole rendering; without
/// arguments it names the command alone.
pub proof fn lemma_execute_prompt_carries_arguments(command: Seq<char>, rendered: Seq<char>)
    ensures
        execute_prompt_text(command, Some(rendered)) == "Use the 'execute' tool to run '"@ + command
            + "' with arguments "@ + rendered
            + ". Capture stdout and stderr. Return a concise summary and include short outputs."@,
        execute_prompt_text(command, None) == "Use the 'execute' tool to run '"@ + command
            + "'. Capture stdout and stderr. Return a concise summary and include short outputs."@,
{
    reveal_strlit("'");
    reveal_strlit(" with arguments ");
    reveal_strlit("' with arguments ");
    reveal_strlit(". Capture stdout and stderr. Return a concise summary and include short outputs.");
    reveal_strlit("'. Capture stdout and stderr. Return a concise summary and include short outputs.");
    let head = "Use the 'execute' tool to run '"@ + command;
    let tail = ". Capture stdout and stderr. Return a concise summary and include short outputs."@;
    assert(head + "'"@ + (" with arguments "@ + rendered) + tail =~= head + "' with arguments "@ + rendered + tail);
    assert(head + "'"@ + Seq::<char>::empty() + tail =~= head + "'. Capture stdout and stderr. Return a concise summary and include short outputs."@);
}

/// Writes the text of the prompt that asks to run `command`, given the
/// rendering of its arguments, if it has any.
pub fn execute_prompt(command: &str, rendered_arguments: Option<&str>) -> (r: String)
    ensures
        r@ == execute_prompt_text(
            command@,
            match rendered_arguments {
                Some(a) => Some(a@),
                None => None,
            },
        ),
{
    let mut msg = String::from_str("Use the 'execute' tool to run '");
    msg.append(command);
    msg.append("'");
    match rendered_arguments {
        Some(a) => {
            msg.append(" with arguments ");
            msg.append(a);
        },
        None => {},
    }
    msg.append(". Capture stdout and stderr. Return a concise summary and include short outputs.");
    proof {
        assert(msg@ =~= execute_prompt_text(
            command@,
            match rendered_arguments {
                Some(a) => Some(a@),
                None => None,
            },
        ));
    }
    msg
}

/// Text of the prompt that asks to run a command through the execute tool.
pub fn artifex_execute(args: &ExecutePromptArgs) -> (r: String)
    ensures
        r@ == execute_prompt_text(
            args.command@,
            if args.arguments@.len() == 0 {
                None
            } else {
                Some(render_arguments(args.arguments@.map_values(|s: String| s@)))
            },
        ),
        forall|i: int|
            0 <= i < args.arguments@.len() ==> is_debug_quoted(
                #[trigger] item_rendering(args.arguments@[i]@),
                args.arguments@[i]@,
            ),
        (forall|i: int| 0 <= i < args.arguments@.len() ==> is_plain(#[trigger] args.arguments@[i]@))
            ==> r@ == execute_prompt_text(
            args.command@,
            if args.arguments@.len() == 0 {
                None
            } else {
                Some(plain_rendering(args.arguments@.map_values(|s: String| s@)))
            },
        ),
{
    let rendered = render_list(&args.arguments);
    proof {
        let v = args.arguments@.map_values(|s: String| s@);
        if forall|i: int| 0 <= i < args.arguments@.len() ==> is_plain(#[trigger] args.arguments@[i]@) {
            assert forall|i: int| 0 <= i < v.len() implies is_plain(#[trigger] v[i]) by {
                assert(is_plain(args.arguments@[i]@));
            }
            assert forall|i: int| 0 <= i < v.len() implies is_debug_quoted(#[trigger] item_rendering(v[i]), v[i]) by {
                assert(is_debug_quoted(item_rendering(args.arguments@[i]@), args.arguments@[i]@));
            }
            lemma_plain_items_render_quoted(v);
        }
    }
    if args.arguments.len() == 0 {
        execute_prompt(args.command.as_str(), None)
    } else {
        execute_prompt(args.command.as_str(), Some(rendered.as_str()))
    }
}

/// The message that reports the progress of an upgrade at `position`
/// percent.
pub fn upgrade_progress_message(position: u64) -> (r: String)
    ensures
        r@ == "Upgrade: "@ + decimal(position as nat) + "%"@,
        r@.len() >= 11,
        r@.subrange(0, 9) == "Upgrade: "@,
        r@.last() == '%',
        forall|i: int| 9 <= i < r@.len() - 1 ==> is_digit(#[trigger] r@[i]),
        position > 0 ==> r@[9] != '0',
        digits_value(r@.subrange(9, r@.len() - 1)) == position,
{
    let mut msg = String::from_str("Upgrade: ");
    push_decimal(&mut msg, position);
    msg.append("%");
    proof {
        reveal_strlit("Upgrade: ");
        reveal_strlit("%");
        let d = decimal(position as nat);
        lemma_decimal_reads_back(position as nat);
        assert(msg@.subrange(0, 9) =~= "Upgrade: "@);
        assert(msg@.subrange(9, msg@.len() - 1) =~= d);
        assert forall|i: int| 9 <= i < msg@.len() - 1 implies is_digit(#[trigger] msg@[i]) by {
            assert(msg@[i] == d[i - 9]);
        }
        assert(msg@[9] == d[0]);
    }
    msg
}

} // verus!
