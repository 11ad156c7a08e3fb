//! Talking to herdr over its socket: what a request looks like, and what an answer says.

use vstd::prelude::*;

use crate::json;
use crate::json::{member, quoted, string};
use crate::port;
use crate::port::{
    Notification, PaneDestination, PaneDestinationView, PaneSplit, PluginPaneOpen, Snapshot,
    WorktreeCreate, WorktreeOpen,
};
use crate::shapes;
use crate::text;
use crate::text::{joined, push_decimal, trimmed_text};

verus! {

/// The connection to herdr: where its socket is, and the number of the next request.
pub struct SocketHerdr {
    socket_path: String,
    next_id: u64,
}

#[verifier::ext_equal]
pub struct SocketHerdrView {
    pub socket_path: Seq<char>,
    pub next_id: u64,
}

impl View for SocketHerdr {
    type V = SocketHerdrView;

    closed spec fn view(&self) -> SocketHerdrView {
        SocketHerdrView { socket_path: self.socket_path@, next_id: self.next_id }
    }
}

/// A request to herdr: its method, and the document of its parameters.
#[derive(Debug, Clone, PartialEq, Eq)]
pub struct Call {
    pub method: String,
    pub params: String,
}

#[verifier::ext_equal]
pub struct CallView {
    pub method: Seq<char>,
    pub params: Seq<char>,
}

impl View for Call {
    type V = CallView;

    open spec fn view(&self) -> CallView {
        CallView { method: self.method@, params: self.params@ }
    }
}

// ---------------------------------------------------------------- documents

/// A member of an object: its key, and the document of its value.
pub open spec fn entry_text(key: Seq<char>, value: Seq<char>) -> Seq<char> {
    "\""@ + key + "\":"@ + value
}

fn entry(key: &str, value: &str) -> (out: String)
    ensures
        out@ == entry_text(key@, value@),
{
    let mut out = "\"".to_owned();
    out.append(key);
    out.append("\":");
    out.append(value);
    out
}

/// The object of the members.
pub open spec fn object_text(entries: Seq<Seq<char>>) -> Seq<char> {
    "{"@ + text::join(entries, ","@) + "}"@
}

fn object(entries: &Vec<String>) -> (out: String)
    ensures
        out@ == object_text(text::texts(entries@)),
{
    let mut out = "{".to_owned();
    out.append(joined(entries, ",").as_str());
    out.append("}");
    out
}

/// A text, or `null` where there is none.
pub open spec fn opt_text(value: Option<Seq<char>>) -> Seq<char> {
    match value {
        Some(text) => json::json_quoted(text),
        None => "null"@,
    }
}

fn optional(value: &Option<String>) -> (out: String)
    ensures
        out@ == opt_text(shapes::opt(*value)),
{
    match value {
        Some(text) => quoted(text.as_str()),
        None => "null".to_owned(),
    }
}

/// An object of texts, whose keys can be any.
pub open spec fn env_text(env: Seq<(Seq<char>, Seq<char>)>) -> Seq<char> {
    object_text(
        Seq::new(
            env.len(),
            |i: int| json::json_quoted(env[i].0) + ":"@ + json::json_quoted(env[i].1),
        ),
    )
}

fn env_document(env: &Vec<(String, String)>) -> (out: String)
    ensures
        out@ == env_text(shapes::pairs(env@)),
{
    let ghost all = shapes::pairs(env@);
    let ghost members = Seq::new(
        all.len(),
        |i: int| json::json_quoted(all[i].0) + ":"@ + json::json_quoted(all[i].1),
    );
    let mut entries: Vec<String> = Vec::new();
    let mut i: usize = 0;
    while i < env.len()
        invariant
            i <= env@.len(),
            all == shapes::pairs(env@),
            members == Seq::new(
                all.len(),
                |i: int| json::json_quoted(all[i].0) + ":"@ + json::json_quoted(all[i].1),
            ),
            text::texts(entries@) == members.take(i as int),
        decreases env@.len() - i,
    {
        let ghost before = text::texts(entries@);
        let mut member = quoted(env[i].0.as_str());
        member.append(":");
        member.append(quoted(env[i].1.as_str()).as_str());
        entries.push(member);
        assert(text::texts(entries@) =~= before.push(members[i as int]));
        assert(members.take(i + 1) =~= before.push(members[i as int]));
        i = i + 1;
    }
    assert(members.take(i as int) =~= members);
    object(&entries)
}

/// A truth value.
pub open spec fn bool_text(value: bool) -> Seq<char> {
    if value {
        "true"@
    } else {
        "false"@
    }
}

fn boolean(value: bool) -> (out: &'static str)
    ensures
        out@ == bool_text(value),
{
    if value {
        "true"
    } else {
        "false"
    }
}

/// A call with one text for a parameter.
pub open spec fn one_param(method: Seq<char>, key: Seq<char>, value: Seq<char>) -> CallView {
    CallView { method, params: object_text(seq![entry_text(key, json::json_quoted(value))]) }
}

fn call_with(method: &str, key: &str, value: &str) -> (call: Call)
    ensures
        call@ == one_param(method@, key@, value@),
{
    let mut entries: Vec<String> = Vec::new();
    entries.push(entry(key, quoted(value).as_str()));
    assert(text::texts(entries@) =~= seq![entry_text(key@, json::json_quoted(value@))]);
    Call { method: method.to_owned(), params: object(&entries) }
}

// ---------------------------------------------------------------- requests

/// The line that puts a call to herdr, as request number `id`.
pub open spec fn request_text(call: CallView, id: u64) -> Seq<char> {
    object_text(
        seq![
            entry_text("id"@, json::json_quoted("herdr-gh-nav:"@ + text::decimal(id as nat))),
            entry_text("method"@, json::json_quoted(call.method)),
            entry_text("params"@, call.params),
        ],
    )
}

/// The parameters of a move.
pub open spec fn destination_text(destination: PaneDestinationView) -> Seq<char> {
    match destination {
        PaneDestinationView::Tab { tab_id, split, target_pane_id } => object_text(
            seq![
                entry_text("split"@, json::json_quoted(split.word())),
                entry_text("tab_id"@, json::json_quoted(tab_id)),
                entry_text("target_pane_id"@, opt_text(target_pane_id)),
                entry_text("type"@, json::json_quoted("tab"@)),
            ],
        ),
        PaneDestinationView::NewTab { workspace_id } => object_text(
            seq![
                entry_text("type"@, json::json_quoted("new_tab"@)),
                entry_text("workspace_id"@, json::json_quoted(workspace_id)),
            ],
        ),
    }
}

fn destination_document(destination: &PaneDestination) -> (out: String)
    ensures
        out@ == destination_text(destination@),
{
    let mut entries: Vec<String> = Vec::new();
    match destination {
        PaneDestination::Tab { tab_id, split, target_pane_id } => {
            entries.push(entry("split", quoted(split.as_str()).as_str()));
            entries.push(entry("tab_id", quoted(tab_id.as_str()).as_str()));
            entries.push(entry("target_pane_id", optional(target_pane_id).as_str()));
            entries.push(entry("type", quoted("tab").as_str()));
            assert(text::texts(entries@) =~= seq![
                entry_text("split"@, json::json_quoted(split.word())),
                entry_text("tab_id"@, json::json_quoted(tab_id@)),
                entry_text("target_pane_id"@, opt_text(shapes::opt(*target_pane_id))),
                entry_text("type"@, json::json_quoted("tab"@)),
            ]);
        },
        PaneDestination::NewTab { workspace_id } => {
            entries.push(entry("type", quoted("new_tab").as_str()));
            entries.push(entry("workspace_id", quoted(workspace_id.as_str()).as_str()));
            assert(text::texts(entries@) =~= seq![
                entry_text("type"@, json::json_quoted("new_tab"@)),
                entry_text("workspace_id"@, json::json_quoted(workspace_id@)),
            ]);
        },
    }
    object(&entries)
}

impl SocketHerdr {
    /// The connection over the socket that herdr names; an error where it names none.
    pub fn from_env(path: Option<String>) -> (herdr: Result<SocketHerdr, String>)
        ensures
            match (path, herdr) {
                (Some(path), Ok(herdr)) => herdr@ == (SocketHerdrView {
                    socket_path: path@,
                    next_id: 0,
                }),
                (None, Err(words)) => words@
                    == "HERDR_SOCKET_PATH is not set. herdr-gh-nav has to be run by herdr (as a plugin action or pane), not directly from a shell."@,
                _ => false,
            },
    {
        match path {
            Some(socket_path) => Ok(SocketHerdr { socket_path, next_id: 0 }),
            None => Err(
                "HERDR_SOCKET_PATH is not set. herdr-gh-nav has to be run by herdr (as a plugin action or pane), not directly from a shell.".to_owned(),
            ),
        }
    }

    /// Where the socket is.
    pub fn socket_path(&self) -> (path: &str)
        ensures
            path@ == self@.socket_path,
    {
        self.socket_path.as_str()
    }

    /// The line that puts a call to herdr. Every request has a number of its own.
    pub fn request(&mut self, call: &Call) -> (line: String)
        ensures
            line@ == request_text(call@, old(self)@.next_id),
            final(self)@ == (SocketHerdrView {
                next_id: old(self)@.next_id.wrapping_add(1),
                ..old(self)@
            }),
    {
        let id = self.next_id;
        self.next_id = self.next_id.wrapping_add(1);
        let mut name = "herdr-gh-nav:".to_owned();
        push_decimal(&mut name, id as u128);
        let mut entries: Vec<String> = Vec::new();
        entries.push(entry("id", quoted(name.as_str()).as_str()));
        entries.push(entry("method", quoted(call.method.as_str()).as_str()));
        entries.push(entry("params", call.params.as_str()));
        assert(text::texts(entries@) =~= seq![
            entry_text("id"@, json::json_quoted("herdr-gh-nav:"@ + text::decimal(id as nat))),
            entry_text("method"@, json::json_quoted(call@.method)),
            entry_text("params"@, call@.params),
        ]);
        object(&entries)
    }

    /// Asks what the session looks like.
    pub fn snapshot() -> (call: Call)
        ensures
            call@ == (CallView { method: "session.snapshot"@, params: "{}"@ }),
    {
        Call { method: "session.snapshot".to_owned(), params: "{}".to_owned() }
    }

    /// Asks for the checkouts of the repository that a directory is in.
    pub fn worktree_list(cwd: &str) -> (call: Call)
        ensures
            call@ == one_param("worktree.list"@, "cwd"@, cwd@),
    {
        call_with("worktree.list", "cwd", cwd)
    }

    /// Asks for a new checkout.
    pub fn worktree_create(request: &WorktreeCreate) -> (call: Call)
        ensures
            call@ == (CallView {
                method: "worktree.create"@,
                params: object_text(
                    seq![
                        entry_text("base"@, opt_text(request@.base)),
                        entry_text("branch"@, opt_text(request@.branch)),
                        entry_text("cwd"@, json::json_quoted(request@.cwd)),
                        entry_text("focus"@, bool_text(request@.focus)),
                    ],
                ),
            }),
    {
        let mut entries: Vec<String> = Vec::new();
        entries.push(entry("base", optional(&request.base).as_str()));
        entries.push(entry("branch", optional(&request.branch).as_str()));
        entries.push(entry("cwd", quoted(request.cwd.as_str()).as_str()));
        entries.push(entry("focus", boolean(request.focus)));
        assert(text::texts(entries@) =~= seq![
            entry_text("base"@, opt_text(request@.base)),
            entry_text("branch"@, opt_text(request@.branch)),
            entry_text("cwd"@, json::json_quoted(request@.cwd)),
            entry_text("focus"@, bool_text(request@.focus)),
        ]);
        Call { method: "worktree.create".to_owned(), params: object(&entries) }
    }

    /// Asks for a checkout to be opened.
    pub fn worktree_open(request: &WorktreeOpen) -> (call: Call)
        ensures
            call@ == (CallView {
                method: "worktree.open"@,
                params: object_text(
                    seq![
                        entry_text("branch"@, opt_text(request@.branch)),
                        entry_text("cwd"@, json::json_quoted(request@.cwd)),
                        entry_text("focus"@, bool_text(request@.focus)),
                        entry_text("path"@, opt_text(request@.path)),
                    ],
                ),
            }),
    {
        let mut entries: Vec<String> = Vec::new();
        entries.push(entry("branch", optional(&request.branch).as_str()));
        entries.push(entry("cwd", quoted(request.cwd.as_str()).as_str()));
        entries.push(entry("focus", boolean(request.focus)));
        entries.push(entry("path", optional(&request.path).as_str()));
        assert(text::texts(entries@) =~= seq![
            entry_text("branch"@, opt_text(request@.branch)),
            entry_text("cwd"@, json::json_quoted(request@.cwd)),
            entry_text("focus"@, bool_text(request@.focus)),
            entry_text("path"@, opt_text(request@.path)),
        ]);
        Call { method: "worktree.open".to_owned(), params: object(&entries) }
    }

    /// Asks for a pane to be shown.
    pub fn pane_focus(pane_id: &str) -> (call: Call)
        ensures
            call@ == one_param("pane.focus"@, "pane_id"@, pane_id@),
    {
        call_with("pane.focus", "pane_id", pane_id)
    }

    /// Asks for a pane to be closed.
    pub fn pane_close(pane_id: &str) -> (call: Call)
        ensures
            call@ == one_param("pane.close"@, "pane_id"@, pane_id@),
    {
        call_with("pane.close", "pane_id", pane_id)
    }

    /// Asks for a new pane beside another.
    pub fn pane_split(request: &PaneSplit) -> (call: Call)
        ensures
            call@ == (CallView {
                method: "pane.split"@,
                params: object_text(
                    seq![
                        entry_text("cwd"@, opt_text(request@.cwd)),
                        entry_text("direction"@, json::json_quoted(request@.direction.word())),
                        entry_text("focus"@, bool_text(request@.focus)),
                        entry_text("target_pane_id"@, json::json_quoted(request@.target_pane_id)),
                    ],
                ),
            }),
    {
        let mut entries: Vec<String> = Vec::new();
        entries.push(entry("cwd", optional(&request.cwd).as_str()));
        entries.push(entry("direction", quoted(request.direction.as_str()).as_str()));
        entries.push(entry("focus", boolean(request.focus)));
        entries.push(entry("target_pane_id", quoted(request.target_pane_id.as_str()).as_str()));
        assert(text::texts(entries@) =~= seq![
            entry_text("cwd"@, opt_text(request@.cwd)),
            entry_text("direction"@, json::json_quoted(request@.direction.word())),
            entry_text("focus"@, bool_text(request@.focus)),
            entry_text("target_pane_id"@, json::json_quoted(request@.target_pane_id)),
        ]);
        Call { method: "pane.split".to_owned(), params: object(&entries) }
    }

    /// Asks for a pane to be moved.
    pub fn pane_move(pane_id: &str, destination: &PaneDestination, focus: bool) -> (call: Call)
        ensures
            call@ == (CallView {
                method: "pane.move"@,
                params: object_text(
                    seq![
                        entry_text("destination"@, destination_text(destination@)),
                        entry_text("focus"@, bool_text(focus)),
                        entry_text("pane_id"@, json::json_quoted(pane_id@)),
                    ],
                ),
            }),
    {
        let mut entries: Vec<String> = Vec::new();
        entries.push(entry("destination", destination_document(destination).as_str()));
        entries.push(entry("focus", boolean(focus)));
        entries.push(entry("pane_id", quoted(pane_id).as_str()));
        assert(text::texts(entries@) =~= seq![
            entry_text("destination"@, destination_text(destination@)),
            entry_text("focus"@, bool_text(focus)),
            entry_text("pane_id"@, json::json_quoted(pane_id@)),
        ]);
        Call { method: "pane.move".to_owned(), params: object(&entries) }
    }

    /// Asks for a workspace to be shown.
    pub fn workspace_focus(workspace_id: &str) -> (call: Call)
        ensures
            call@ == one_param("workspace.focus"@, "workspace_id"@, workspace_id@),
    {
        call_with("workspace.focus", "workspace_id", workspace_id)
    }

    /// Asks for a tab to be shown.
    pub fn tab_focus(tab_id: &str) -> (call: Call)
        ensures
            call@ == one_param("tab.focus"@, "tab_id"@, tab_id@),
    {
        call_with("tab.focus", "tab_id", tab_id)
    }

    /// Asks for a pane that runs the plugin.
    pub fn plugin_pane_open(request: &PluginPaneOpen) -> (call: Call)
        ensures
            call@ == (CallView {
                method: "plugin.pane.open"@,
                params: object_text(
                    seq![
                        entry_text("cwd"@, opt_text(request@.cwd)),
                        entry_text("entrypoint"@, json::json_quoted(request@.entrypoint)),
                        entry_text("env"@, env_text(request@.env)),
                        entry_text("focus"@, bool_text(request@.focus)),
                        entry_text("placement"@, json::json_quoted(request@.placement)),
                        entry_text("plugin_id"@, json::json_quoted(request@.plugin_id)),
                    ],
                ),
            }),
    {
        let mut entries: Vec<String> = Vec::new();
        entries.push(entry("cwd", optional(&request.cwd).as_str()));
        entries.push(entry("entrypoint", quoted(request.entrypoint.as_str()).as_str()));
        entries.push(entry("env", env_document(&request.env).as_str()));
        entries.push(entry("focus", boolean(request.focus)));
        entries.push(entry("placement", quoted(request.placement.as_str()).as_str()));
        entries.push(entry("plugin_id", quoted(request.plugin_id.as_str()).as_str()));
        assert(text::texts(entries@) =~= seq![
            entry_text("cwd"@, opt_text(request@.cwd)),
            entry_text("entrypoint"@, json::json_quoted(request@.entrypoint)),
            entry_text("env"@, env_text(request@.env)),
            entry_text("focus"@, bool_text(request@.focus)),
            entry_text("placement"@, json::json_quoted(request@.placement)),
            entry_text("plugin_id"@, json::json_quoted(request@.plugin_id)),
        ]);
        Call { method: "plugin.pane.open".to_owned(), params: object(&entries) }
    }

    /// Asks for a notification to be shown.
    pub fn notify(notification: &Notification) -> (call: Call)
        ensures
            call@ == (CallView {
                method: "notification.show"@,
                params: object_text(
                    seq![
                        entry_text("body"@, opt_text(notification@.body)),
                        entry_text("sound"@, json::json_quoted(notification@.sound.word())),
                        entry_text("title"@, json::json_quoted(notification@.title)),
                    ],
                ),
            }),
    {
        let mut entries: Vec<String> = Vec::new();
        entries.push(entry("body", optional(&notification.body).as_str()));
        entries.push(entry("sound", quoted(notification.sound.as_str()).as_str()));
        entries.push(entry("title", quoted(notification.title.as_str()).as_str()));
        assert(text::texts(entries@) =~= seq![
            entry_text("body"@, opt_text(notification@.body)),
            entry_text("sound"@, json::json_quoted(notification@.sound.word())),
            entry_text("title"@, json::json_quoted(notification@.title)),
        ]);
        Call { method: "notification.show".to_owned(), params: object(&entries) }
    }

    /// Asks for a pane that runs the plugin to be shown.
    pub fn plugin_pane_focus(pane_id: &str) -> (call: Call)
        ensures
            call@ == one_param("plugin.pane.focus"@, "pane_id"@, pane_id@),
    {
        call_with("plugin.pane.focus", "pane_id", pane_id)
    }
}

// ---------------------------------------------------------------- answers

/// What herdr says of a request that it refuses.
#[derive(Debug, Clone, PartialEq, Eq)]
pub struct Refusal {
    pub code: Option<String>,
    pub message: Option<String>,
}

/// What an answer of herdr holds.
#[derive(Debug, Clone, PartialEq, Eq)]
pub struct Response {
    pub error: Option<Refusal>,
    pub result: Option<String>,
}

#[verifier::ext_equal]
pub struct RefusalView {
    pub code: Option<Seq<char>>,
    pub message: Option<Seq<char>>,
}

#[verifier::ext_equal]
pub struct ResponseView {
    pub error: Option<RefusalView>,
    pub result: Option<Seq<char>>,
}

impl View for Refusal {
    type V = RefusalView;

    open spec fn view(&self) -> RefusalView {
        RefusalView { code: shapes::opt(self.code), message: shapes::opt(self.message) }
    }
}

impl View for Response {
    type V = ResponseView;

    open spec fn view(&self) -> ResponseView {
        ResponseView { error: shapes::opt(self.error), result: shapes::opt(self.result) }
    }
}

/// A text, or another where there is none.
pub open spec fn or_else(text: Option<Seq<char>>, other: Seq<char>) -> Seq<char> {
    match text {
        Some(text) => text,
        None => other,
    }
}

/// What an answer comes to: the document of its result, or words on why there is none. A refusal
/// counts whatever else the answer holds.
pub open spec fn result_of(
    method: Seq<char>,
    response: Result<ResponseView, Seq<char>>,
) -> Result<Seq<char>, Seq<char>> {
    match response {
        Err(words) => Err(
            "herdr sent an unparseable response to "@ + method + ": "@ + words,
        ),
        Ok(response) => match response.error {
            Some(refusal) => Err(
                "herdr rejected "@ + method + ": "@ + or_else(refusal.message, "no message"@)
                    + " ("@ + or_else(refusal.code, "unknown"@) + ")"@,
            ),
            None => match response.result {
                Some(result) => Ok(result),
                None => Err(
                    "herdr response to "@ + method + " had neither result nor error"@,
                ),
            },
        },
    }
}

fn append_or(out: &mut String, text: &Option<String>, other: &str)
    ensures
        final(out)@ == old(out)@ + or_else(shapes::opt(*text), other@),
{
    match text {
        Some(text) => out.append(text.as_str()),
        None => out.append(other),
    }
}

/// What an answer comes to: the document of its result, or words on why there is none.
pub fn result(method: &str, response: &Result<Response, String>) -> (out: Result<String, String>)
    ensures
        shapes::outcome(out) == result_of(method@, shapes::outcome(*response)),
{
    let response = match response {
        Err(words) => {
            let mut out = "herdr sent an unparseable response to ".to_owned();
            out.append(method);
            out.append(": ");
            out.append(words.as_str());
            return Err(out);
        },
        Ok(response) => response,
    };
    if let Some(refusal) = &response.error {
        let mut out = "herdr rejected ".to_owned();
        out.append(method);
        out.append(": ");
        append_or(&mut out, &refusal.message, "no message");
        out.append(" (");
        append_or(&mut out, &refusal.code, "unknown");
        out.append(")");
        return Err(out);
    }
    match &response.result {
        Some(result) => Ok(result.clone()),
        None => {
            let mut out = "herdr response to ".to_owned();
            out.append(method);
            out.append(" had neither result nor error");
            Err(out)
        },
    }
}

/// The text under a key of an object, where there is one.
pub open spec fn text_under(document: Seq<char>, key: Seq<char>) -> Option<Seq<char>> {
    match json::json_member(document, key) {
        Ok(Some(value)) => json::json_string(value),
        _ => None,
    }
}

fn text_at(document: &str, key: &str) -> (text: Option<String>)
    ensures
        shapes::opt(text) == text_under(document@, key@),
{
    match member(document, key) {
        Ok(Some(value)) => string(value.as_str()),
        _ => None,
    }
}

/// What a line of herdr holds.
pub open spec fn parsed(line: Seq<char>) -> Result<ResponseView, Seq<char>> {
    match json::json_member(line, "error"@) {
        Err(words) => Err(words),
        Ok(error) => match json::json_member(line, "result"@) {
            Err(words) => Err(words),
            Ok(result) => Ok(
                ResponseView {
                    error: match error {
                        Some(error) => Some(
                            RefusalView {
                                code: text_under(error, "code"@),
                                message: text_under(error, "message"@),
                            },
                        ),
                        None => None,
                    },
                    result,
                },
            ),
        },
    }
}

fn parse(line: &str) -> (response: Result<Response, String>)
    ensures
        shapes::outcome(response) == parsed(line@),
{
    let error = match member(line, "error") {
        Err(words) => {
            return Err(words);
        },
        Ok(error) => error,
    };
    let result = match member(line, "result") {
        Err(words) => {
            return Err(words);
        },
        Ok(result) => result,
    };
    let error = match error {
        Some(error) => Some(
            Refusal {
                code: text_at(error.as_str(), "code"),
                message: text_at(error.as_str(), "message"),
            },
        ),
        None => None,
    };
    Ok(Response { error, result })
}

/// What the line that herdr sent back comes to: the document of the result, or words on why there
/// is none.
pub fn read_response(method: &str, line: &str) -> (out: Result<String, String>)
    ensures
        shapes::outcome(out) == (if text::trim(line@).len() == 0 {
            Err("herdr closed the connection without answering "@ + method@)
        } else {
            result_of(method@, parsed(line@))
        }),
{
    if trimmed_text(line).as_str().is_empty() {
        let mut out = "herdr closed the connection without answering ".to_owned();
        out.append(method);
        return Err(out);
    }
    let response = parse(line);
    self::result(method, &response)
}

/// What a field of a result comes to: its document, or words on why there is none.
pub open spec fn field_of(
    method: Seq<char>,
    field: Seq<char>,
    found: Option<Seq<char>>,
) -> Result<Seq<char>, Seq<char>> {
    match found {
        Some(value) => Ok(value),
        None => Err("herdr's "@ + method + " response had no `"@ + field + "` field"@),
    }
}

/// What a field of a result comes to: its document, or words on why there is none.
pub fn field(method: &str, name: &str, found: Option<String>) -> (value: Result<String, String>)
    ensures
        shapes::outcome(value) == field_of(method@, name@, shapes::opt(found)),
{
    match found {
        Some(value) => Ok(value),
        None => {
            let mut out = "herdr's ".to_owned();
            out.append(method);
            out.append(" response had no `");
            out.append(name);
            out.append("` field");
            Err(out)
        },
    }
}

/// The document under a key of a result, where there is one.
pub open spec fn found(result: Seq<char>, key: Seq<char>) -> Option<Seq<char>> {
    match json::json_member(result, key) {
        Ok(value) => value,
        Err(_) => None,
    }
}

fn find(result: &str, key: &str) -> (value: Option<String>)
    ensures
        shapes::opt(value) == found(result@, key@),
{
    match member(result, key) {
        Ok(value) => value,
        Err(_) => None,
    }
}

/// The document of a field of a result, or words on why there is none.
pub fn read_field(method: &str, result: &str, name: &str) -> (value: Result<String, String>)
    ensures
        shapes::outcome(value) == field_of(method@, name@, found(result@, name@)),
{
    self::field(method, name, find(result, name))
}

/// What the pane of a picker comes to: its document, or words on why there is none.
pub open spec fn plugin_pane_of(pane: Option<Seq<char>>) -> Result<Seq<char>, Seq<char>> {
    match pane {
        Some(pane) => Ok(pane),
        None => Err("herdr's plugin.pane.open response had no pane"@),
    }
}

/// What the pane of a picker comes to: its document, or words on why there is none.
pub fn plugin_pane(pane: Option<String>) -> (value: Result<String, String>)
    ensures
        shapes::outcome(value) == plugin_pane_of(shapes::opt(pane)),
{
    match pane {
        Some(pane) => Ok(pane),
        None => Err("herdr's plugin.pane.open response had no pane".to_owned()),
    }
}

/// The document of the pane in the result of opening one for the plugin.
pub fn read_plugin_pane(result: &str) -> (value: Result<String, String>)
    ensures
        shapes::outcome(value) == plugin_pane_of(
            match found(result@, "plugin_pane"@) {
                Some(opened) => found(opened, "pane"@),
                None => None,
            },
        ),
{
    let pane = match find(result, "plugin_pane") {
        Some(opened) => find(opened.as_str(), "pane"),
        None => None,
    };
    plugin_pane(pane)
}

/// Words on an answer that holds something else than it should.
pub fn misshapen(method: &str, field: Option<&str>, cause: &str) -> (words: String)
    ensures
        words@ == "herdr's "@ + method@ + (match field {
            Some(field) => " `"@ + field@ + "`"@,
            None => " response"@,
        }) + " did not match the expected shape: "@ + cause@,
{
    let mut out = "herdr's ".to_owned();
    out.append(method);
    match field {
        Some(field) => {
            out.append(" `");
            out.append(field);
            out.append("`");
        },
        None => {
            out.append(" response");
        },
    }
    assert(out@ =~= "herdr's "@ + method@ + (match field {
        Some(field) => " `"@ + field@ + "`"@,
        None => " response"@,
    }));
    out.append(" did not match the expected shape: ");
    out.append(cause);
    out
}

/// Whether a pane is closed, from herdr's answer to being asked to close it and, where that is a
/// refusal, what the session looks like since. A pane that the session no longer has is closed,
/// whatever herdr said; else a refusal comes out as it is.
pub fn closed(pane_id: &str, answer: Result<(), String>, session: &Option<Snapshot>) -> (closed:
    Result<(), String>)
    ensures
        match answer {
            Ok(_) => closed is Ok,
            Err(words) => if session matches Some(snapshot) && !port::has_pane(
                snapshot@.panes,
                pane_id@,
            ) {
                closed is Ok
            } else {
                closed == Err::<(), String>(words)
            },
        },
{
    match answer {
        Ok(_) => Ok(()),
        Err(words) => match session {
            Some(snapshot) => if snapshot.has(pane_id) {
                Err(words)
            } else {
                Ok(())
            },
            None => Err(words),
        },
    }
}

/// A request that is refused is never taken for one that succeeded, whatever else its answer holds.
pub proof fn law_refusal_is_an_error(
    method: Seq<char>,
    refusal: RefusalView,
    result: Option<Seq<char>>,
)
    ensures
        result_of(method, Ok(ResponseView { error: Some(refusal), result })) is Err,
{
}

/// A request is one object: its number under `id`, behind the name of the program, the method
/// that is called, and the parameters as they are.
pub proof fn law_request_carries_its_call(call: CallView, id: u64)
    ensures
        request_text(call, id) == "{\"id\":"@ + json::json_quoted(
            "herdr-gh-nav:"@ + text::decimal(id as nat),
        ) + ",\"method\":"@ + json::json_quoted(call.method) + ",\"params\":"@ + call.params
            + "}"@,
{
    let number = json::json_quoted("herdr-gh-nav:"@ + text::decimal(id as nat));
    let entries = seq![
        entry_text("id"@, number),
        entry_text("method"@, json::json_quoted(call.method)),
        entry_text("params"@, call.params),
    ];
    lemma_three_joined(entries, ","@);
    reveal_strlit("{\"id\":");
    reveal_strlit(",\"method\":");
    reveal_strlit(",\"params\":");
    reveal_strlit("}");
    reveal_strlit("{");
    reveal_strlit("\"");
    reveal_strlit("\":");
    reveal_strlit(",");
    reveal_strlit("id");
    reveal_strlit("method");
    reveal_strlit("params");
    assert("{"@ + entry_text("id"@, number) =~= "{\"id\":"@ + number);
    assert(","@ + entry_text("method"@, json::json_quoted(call.method)) =~= ",\"method\":"@
        + json::json_quoted(call.method));
    assert(","@ + entry_text("params"@, call.params) =~= ",\"params\":"@ + call.params);
    assert(request_text(call, id) =~= ("{"@ + entries[0]) + (","@ + entries[1]) + (","@
        + entries[2]) + "}"@);
}

proof fn lemma_three_joined(parts: Seq<Seq<char>>, separator: Seq<char>)
    requires
        parts.len() == 3,
    ensures
        text::join(parts, separator) == parts[0] + separator + parts[1] + separator + parts[2],
{
    let two = parts.drop_last();
    assert(two.drop_last().len() == 1);
    assert(text::join(two.drop_last(), separator) == parts[0]);
    assert(text::join(two, separator) == parts[0] + separator + parts[1]);
}

/// A call of one parameter names it by its key and quotes its value.
pub proof fn law_call_names_its_parameter(method: Seq<char>, key: Seq<char>, value: Seq<char>)
    ensures
        one_param(method, key, value).method == method,
        one_param(method, key, value).params == "{\""@ + key + "\":"@ + json::json_quoted(value)
            + "}"@,
{
    reveal_strlit("{\"");
    reveal_strlit("{");
    reveal_strlit("\"");
    let entries = seq![entry_text(key, json::json_quoted(value))];
    assert(text::join(entries, ","@) == entries[0]);
    assert("{"@ + "\""@ =~= "{\""@);
    assert(object_text(entries) =~= ("{"@ + "\""@) + key + "\":"@ + json::json_quoted(value)
        + "}"@);
}

/// A value that is not there is `null`, one that is there is quoted, and a truth value is written
/// as it is.
pub proof fn law_values_are_written_as_they_are(value: Seq<char>)
    ensures
        opt_text(None) == "null"@,
        opt_text(Some(value)) == json::json_quoted(value),
        bool_text(true) == "true"@,
        bool_text(false) == "false"@,
{
}

/// Members of an object stand in their order with a comma between each two.
pub proof fn law_members_stand_in_order(first: Seq<char>, second: Seq<char>)
    ensures
        object_text(seq![]) == "{}"@,
        object_text(seq![first]) == "{"@ + first + "}"@,
        object_text(seq![first, second]) == "{"@ + (first + ","@ + second) + "}"@,
{
    reveal_strlit("{}");
    reveal_strlit("{");
    reveal_strlit("}");
    assert(text::join(seq![], ","@) =~= Seq::<char>::empty());
    assert(object_text(seq![]) =~= "{}"@);
    let two = seq![first, second];
    assert(two.drop_last() =~= seq![first]);
    assert(text::join(two.drop_last(), ","@) == first);
    assert(text::join(two, ","@) == first + ","@ + second);
}

/// The variables of a new pane are the members of one object: each name with its own value, both
/// quoted, in their order.
pub proof fn law_variables_keep_their_values(
    env: Seq<(Seq<char>, Seq<char>)>,
    name: Seq<char>,
    value: Seq<char>,
)
    ensures
        env_text(seq![]) == "{}"@,
        env_text(seq![(name, value)]) == "{"@ + (json::json_quoted(name) + ":"@
            + json::json_quoted(value)) + "}"@,
        env.len() > 0 ==> env_text(env.push((name, value))) == env_text(env).drop_last() + ","@ + (
        json::json_quoted(name) + ":"@ + json::json_quoted(value)) + "}"@,
{
    reveal_strlit("{");
    reveal_strlit("}");
    law_members_stand_in_order(seq![], seq![]);
    let of = |env: Seq<(Seq<char>, Seq<char>)>|
        Seq::new(
            env.len(),
            |i: int| json::json_quoted(env[i].0) + ":"@ + json::json_quoted(env[i].1),
        );
    assert(of(seq![]) =~= Seq::<Seq<char>>::empty());
    assert(env_text(seq![]) == object_text(of(seq![])));
    let member = json::json_quoted(name) + ":"@ + json::json_quoted(value);
    assert(of(seq![(name, value)]) =~= seq![member]);
    assert(env_text(seq![(name, value)]) == object_text(of(seq![(name, value)])));
    law_members_stand_in_order(member, member);
    if env.len() > 0 {
        let all = of(env.push((name, value)));
        assert(all =~= of(env).push(member));
        assert(env_text(env.push((name, value))) == object_text(all));
        assert(env_text(env) == object_text(of(env)));
        assert(all.drop_last() =~= of(env));
        assert(text::join(all, ","@) == text::join(of(env), ","@) + ","@ + member);
        assert(object_text(of(env)).drop_last() =~= "{"@ + text::join(of(env), ","@));
        assert(object_text(all) =~= object_text(of(env)).drop_last() + ","@ + member + "}"@);
    }
}

/// A pane goes to the tab, beside the pane, and on the side that are named; or to a new tab of the
/// workspace that is named.
pub proof fn law_pane_goes_where_it_is_sent(
    tab: Seq<char>,
    split: port::SplitDirection,
    beside: Option<Seq<char>>,
    workspace: Seq<char>,
)
    ensures
        destination_text(PaneDestinationView::NewTab { workspace_id: workspace }) == object_text(
            seq![
                "\"type\":"@ + json::json_quoted("new_tab"@),
                "\"workspace_id\":"@ + json::json_quoted(workspace),
            ],
        ),
        destination_text(
            PaneDestinationView::Tab { tab_id: tab, split, target_pane_id: beside },
        ) == object_text(
            seq![
                "\"split\":"@ + json::json_quoted(
                    match split {
                        port::SplitDirection::Right => "right"@,
                        port::SplitDirection::Down => "down"@,
                    },
                ),
                "\"tab_id\":"@ + json::json_quoted(tab),
                "\"target_pane_id\":"@ + opt_text(beside),
                "\"type\":"@ + json::json_quoted("tab"@),
            ],
        ),
{
    reveal_strlit("\"");
    reveal_strlit("\":");
    reveal_strlit("type");
    reveal_strlit("workspace_id");
    reveal_strlit("split");
    reveal_strlit("tab_id");
    reveal_strlit("target_pane_id");
    reveal_strlit("\"type\":");
    reveal_strlit("\"workspace_id\":");
    reveal_strlit("\"split\":");
    reveal_strlit("\"tab_id\":");
    reveal_strlit("\"target_pane_id\":");
    assert("\""@ + "type"@ + "\":"@ =~= "\"type\":"@);
    assert("\""@ + "workspace_id"@ + "\":"@ =~= "\"workspace_id\":"@);
    assert("\""@ + "split"@ + "\":"@ =~= "\"split\":"@);
    assert("\""@ + "tab_id"@ + "\":"@ =~= "\"tab_id\":"@);
    assert("\""@ + "target_pane_id"@ + "\":"@ =~= "\"target_pane_id\":"@);
}

/// An answer comes to its result only where it holds one and no refusal. A refusal is told with
/// the message and the code of herdr, and by what stands for one that it left out.
pub proof fn law_only_a_result_is_a_result(
    method: Seq<char>,
    error: Option<RefusalView>,
    result: Option<Seq<char>>,
    words: Seq<char>,
)
    ensures
        ({
            let out = result_of(method, Ok(ResponseView { error, result }));
            &&& out is Ok <==> error is None && result is Some
            &&& out is Ok ==> out->Ok_0 == result->Some_0
            &&& error matches Some(refusal) ==> out == Err::<Seq<char>, _>(
                "herdr rejected "@ + method + ": "@ + (match refusal.message {
                    Some(message) => message,
                    None => "no message"@,
                }) + " ("@ + (match refusal.code {
                    Some(code) => code,
                    None => "unknown"@,
                }) + ")"@,
            )
            &&& error is None && result is None ==> out == Err::<Seq<char>, _>(
                "herdr response to "@ + method + " had neither result nor error"@,
            )
        }),
        result_of(method, Err(words)) == Err::<Seq<char>, _>(
            "herdr sent an unparseable response to "@ + method + ": "@ + words,
        ),
{
}

/// What a line holds is what stands under `error` and under `result` of it, and what a refusal
/// says stands under `message` and `code`; a line that is no document holds nothing.
pub proof fn law_line_holds_its_members(line: Seq<char>, error: Seq<char>)
    ensures
        parsed(line) is Ok <==> json::json_member(line, "error"@) is Ok && json::json_member(
            line,
            "result"@,
        ) is Ok,
        parsed(line) matches Ok(response) ==> json::json_member(line, "result"@) == Ok::<
            Option<Seq<char>>,
            Seq<char>,
        >(response.result) && (response.error is Some <==> json::json_member(line, "error"@)
            matches Ok(Some(_))),
        parsed(line) is Ok && json::json_member(line, "error"@) == Ok::<
            Option<Seq<char>>,
            Seq<char>,
        >(Some(error)) ==> {
            let refusal = parsed(line)->Ok_0.error->Some_0;
            &&& refusal.message == (match json::json_member(error, "message"@) {
                Ok(Some(value)) => json::json_string(value),
                _ => None,
            })
            &&& refusal.code == (match json::json_member(error, "code"@) {
                Ok(Some(value)) => json::json_string(value),
                _ => None,
            })
        },
{
}

/// A field that is there is what it holds, and one that is not is told by its own name and that of
/// the method.
pub proof fn law_missing_field_is_told(
    method: Seq<char>,
    field: Seq<char>,
    value: Seq<char>,
    result: Seq<char>,
)
    ensures
        field_of(method, field, Some(value)) == Ok::<_, Seq<char>>(value),
        field_of(method, field, None) == Err::<Seq<char>, _>(
            "herdr's "@ + method + " response had no `"@ + field + "` field"@,
        ),
        plugin_pane_of(Some(value)) == Ok::<_, Seq<char>>(value),
        plugin_pane_of(None) == Err::<Seq<char>, _>(
            "herdr's plugin.pane.open response had no pane"@,
        ),
        found(result, field) == Some(value) <==> json::json_member(result, field) == Ok::<
            Option<Seq<char>>,
            Seq<char>,
        >(Some(value)),
{
}

} // verus!
