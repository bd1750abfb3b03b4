//! The file chooser session: Rover started by the desktop portal to pick
//! files for another application.
use vstd::prelude::*;
use crate::text::{str_eq, string_list_view};

verus! {

broadcast use vstd::string::group_string_axioms;

/// What the chooser was asked for.
pub enum ChooserMode {
    Open,
    Save,
    SaveFiles,
}

/// How the front end presents the chooser.
pub struct ChooserConfig {
    pub active: bool,
    pub mode: ChooserMode,
    pub title: String,
    pub accept_label: String,
    pub directory: bool,
    pub multiple: bool,
    pub current_folder: Option<String>,
    pub current_name: Option<String>,
    pub files: Vec<String>,
}

/// A running chooser session: its configuration and the file the answer goes to.
pub struct ChooserSession {
    pub config: ChooserConfig,
    pub response_path: String,
}

/// The chooser state of a running Rover: a session where it was started as a
/// chooser.
pub struct ChooserState {
    session: Option<ChooserSession>,
}

/// The answer a chooser gives.
pub struct ChooserResponse {
    pub accepted: bool,
    pub paths: Vec<String>,
}

/// An answer and the file it is to be written to.
pub struct ChooserReply {
    pub response_path: String,
    pub response: ChooserResponse,
}

/// The configuration of Rover when no chooser session runs.
pub open spec fn inactive_spec(c: ChooserConfig) -> bool {
    &&& !c.active
    &&& c.mode == ChooserMode::Open
    &&& c.title@.len() == 0
    &&& c.accept_label@.len() == 0
    &&& !c.directory
    &&& !c.multiple
    &&& c.current_folder is None
    &&& c.current_name is None
    &&& c.files@.len() == 0
}

/// The view of a list of strings.
pub open spec fn opt_view(o: Option<String>) -> Option<Seq<char>> {
    match o {
        Some(s) => Some(s@),
        None => None,
    }
}

/// `b` holds what `a` holds.
pub open spec fn config_same(a: ChooserConfig, b: ChooserConfig) -> bool {
    &&& b.active == a.active
    &&& b.mode == a.mode
    &&& b.title@ == a.title@
    &&& b.accept_label@ == a.accept_label@
    &&& b.directory == a.directory
    &&& b.multiple == a.multiple
    &&& opt_view(b.current_folder) == opt_view(a.current_folder)
    &&& opt_view(b.current_name) == opt_view(a.current_name)
    &&& string_list_view(b.files@) == string_list_view(a.files@)
}

/// The configuration of Rover when no chooser session runs.
pub fn inactive_config() -> (c: ChooserConfig)
    ensures
        inactive_spec(c),
{
    ChooserConfig {
        active: false,
        mode: ChooserMode::Open,
        title: String::new(),
        accept_label: String::new(),
        directory: false,
        multiple: false,
        current_folder: None,
        current_name: None,
        files: Vec::new(),
    }
}

fn copy_opt(o: &Option<String>) -> (r: Option<String>)
    ensures
        opt_view(r) == opt_view(*o),
{
    match o {
        Some(s) => Some(s.clone()),
        None => None,
    }
}

fn copy_strings(v: &Vec<String>) -> (r: Vec<String>)
    ensures
        string_list_view(r@) == string_list_view(v@),
{
    let mut out: Vec<String> = Vec::new();
    let mut i: usize = 0;
    while i < v.len()
        invariant
            i <= v.len(),
            out@.len() == i,
            forall|k: int| 0 <= k < i ==> (#[trigger] out@[k])@ == v@[k]@,
        decreases v.len() - i,
    {
        out.push(v[i].clone());
        i = i + 1;
    }
    assert(string_list_view(out@) =~= string_list_view(v@));
    out
}

fn copy_config(c: &ChooserConfig) -> (r: ChooserConfig)
    ensures
        config_same(*c, r),
{
    let mode = match c.mode {
        ChooserMode::Open => ChooserMode::Open,
        ChooserMode::Save => ChooserMode::Save,
        ChooserMode::SaveFiles => ChooserMode::SaveFiles,
    };
    ChooserConfig {
        active: c.active,
        mode,
        title: c.title.clone(),
        accept_label: c.accept_label.clone(),
        directory: c.directory,
        multiple: c.multiple,
        current_folder: copy_opt(&c.current_folder),
        current_name: copy_opt(&c.current_name),
        files: copy_strings(&c.files),
    }
}

impl ChooserState {
    /// The session, if Rover runs as a chooser.
    pub closed spec fn session_spec(&self) -> Option<ChooserSession> {
        self.session
    }

    /// A chooser state around `session`.
    pub fn new(session: Option<ChooserSession>) -> (s: Self)
        ensures
            s.session_spec() == session,
    {
        Self { session }
    }

    /// The configuration the front end shows: the session's, or the inactive
    /// one when no session runs.
    pub fn config(&self) -> (c: ChooserConfig)
        ensures
            self.session_spec() matches Some(session) ==> config_same(session.config, c),
            self.session_spec() is None ==> inactive_spec(c),
    {
        match &self.session {
            Some(session) => copy_config(&session.config),
            None => inactive_config(),
        }
    }
}

/// The configuration the front end shows for `state`.
pub fn get_chooser_config(state: &ChooserState) -> (c: ChooserConfig)
    ensures
        state.session_spec() matches Some(session) ==> config_same(session.config, c),
        state.session_spec() is None ==> inactive_spec(c),
{
    state.config()
}

/// `r` answers `response` to the session of `state`, or is the error of a Rover
/// that was not started as a chooser.
pub open spec fn reply_spec(
    state: ChooserState,
    accepted: bool,
    paths: Seq<Seq<char>>,
    r: Result<ChooserReply, String>,
) -> bool {
    match state.session_spec() {
        Some(session) => r matches Ok(reply) && reply.response_path@ == session.response_path@
            && reply.response.accepted == accepted && string_list_view(reply.response.paths@)
            == paths,
        None => r matches Err(e) && e@ == "Rover was not started as a chooser"@,
    }
}

fn reply(state: &ChooserState, response: ChooserResponse) -> (r: Result<ChooserReply, String>)
    ensures
        reply_spec(*state, response.accepted, string_list_view(response.paths@), r),
{
    match &state.session {
        Some(session) => Ok(ChooserReply { response_path: session.response_path.clone(), response }),
        None => Err("Rover was not started as a chooser".to_string()),
    }
}

/// Accepts `paths`: the answer to write to the session's response file, or an
/// error where Rover was not started as a chooser. Rover exits after either.
pub fn accept_chooser(paths: Vec<String>, state: &ChooserState) -> (r: Result<ChooserReply, String>)
    ensures
        reply_spec(*state, true, string_list_view(paths@), r),
{
    reply(state, ChooserResponse { accepted: true, paths })
}

/// Cancels the chooser: an answer with no paths, or the error of a Rover that
/// was not started as a chooser.
pub fn cancel_chooser(state: &ChooserState) -> (r: Result<ChooserReply, String>)
    ensures
        reply_spec(*state, false, Seq::empty(), r),
{
    let paths: Vec<String> = Vec::new();
    assert(string_list_view(paths@) =~= Seq::<Seq<char>>::empty());
    reply(state, ChooserResponse { accepted: false, paths })
}

/// The value of a boolean environment setting: `1` or `true` are set.
pub open spec fn flag_set(v: Option<Seq<char>>) -> bool {
    v == Some("1"@) || v == Some("true"@)
}

fn env_bool(value: &Option<String>) -> (b: bool)
    ensures
        b == flag_set(opt_view(*value)),
{
    match value {
        Some(v) => str_eq(v.as_str(), "1") || str_eq(v.as_str(), "true"),
        None => false,
    }
}

/// `o` where it holds a nonempty text.
pub open spec fn nonempty(o: Option<Seq<char>>) -> Option<Seq<char>> {
    match o {
        Some(s) => if s.len() > 0 {
            Some(s)
        } else {
            None
        },
        None => None,
    }
}

fn keep_nonempty(o: Option<String>) -> (r: Option<String>)
    ensures
        opt_view(r) == nonempty(opt_view(o)),
{
    match o {
        Some(s) => {
            if s.as_str().is_empty() {
                None
            } else {
                Some(s)
            }
        },
        None => None,
    }
}

/// What `serde_json` parses from `text` when asked for a list of strings; `None`
/// where `text` is not such a list.
pub uninterp spec fn json_string_list(text: Seq<char>) -> Option<Seq<Seq<char>>>;

/// Parses `text` as a JSON array of strings (`serde_json::from_str`). Its
/// result is named `json_string_list`; JSON syntax is not restated here.
#[verifier::external_body]
fn parse_string_list(text: &str) -> (r: Option<Vec<String>>)
    ensures
        r is Some <==> json_string_list(text@) is Some,
        r matches Some(v) ==> json_string_list(text@) == Some(string_list_view(v@)),
{
    serde_json::from_str::<Vec<String>>(text).ok()
}

/// The chooser mode that the text of the mode setting selects.
pub open spec fn mode_of(m: Seq<char>) -> ChooserMode {
    if m == "save"@ {
        ChooserMode::Save
    } else if m == "save_files"@ {
        ChooserMode::SaveFiles
    } else {
        ChooserMode::Open
    }
}

/// The mode text selects the mode: `save` a save chooser, `save_files` one
/// that saves several files, and any other text an open chooser.
pub proof fn lemma_mode_text(m: Seq<char>)
    ensures
        (mode_of(m) == ChooserMode::Save) <==> m == "save"@,
        (mode_of(m) == ChooserMode::SaveFiles) <==> m == "save_files"@,
        (mode_of(m) == ChooserMode::Open) <==> (m != "save"@ && m != "save_files"@),
{
    reveal_strlit("save");
    reveal_strlit("save_files");
    assert("save"@.len() != "save_files"@.len());
}

impl ChooserSession {
    /// The session that the chooser settings describe, as read from the
    /// `ROVER_CHOOSER_*` environment variables (an absent or unreadable one is
    /// `None`). There is none without a response file and a mode.
    pub fn from_environment(
        response: Option<String>,
        mode: Option<String>,
        title: Option<String>,
        accept_label: Option<String>,
        directory: Option<String>,
        multiple: Option<String>,
        current_folder: Option<String>,
        current_name: Option<String>,
        files: Option<String>,
    ) -> (r: Option<ChooserSession>)
        ensures
            r is Some <==> (response is Some && mode is Some),
            r matches Some(s) ==> {
                &&& s.response_path@ == response->0@
                &&& s.config.active
                &&& s.config.mode == mode_of(mode->0@)
                &&& s.config.title@ == (match title {
                    Some(t) => t@,
                    None => "Select file"@,
                })
                &&& s.config.accept_label@ == (match accept_label {
                    Some(t) => t@,
                    None => "Select"@,
                })
                &&& s.config.directory == flag_set(opt_view(directory))
                &&& s.config.multiple == flag_set(opt_view(multiple))
                &&& opt_view(s.config.current_folder) == nonempty(opt_view(current_folder))
                &&& opt_view(s.config.current_name) == nonempty(opt_view(current_name))
                &&& string_list_view(s.config.files@) == (match files {
                    Some(f) => match json_string_list(f@) {
                        Some(l) => l,
                        None => Seq::empty(),
                    },
                    None => Seq::empty(),
                })
            },
    {
        let response_path = match response {
            Some(r) => r,
            None => return None,
        };
        let mode = match mode {
            Some(m) => m,
            None => return None,
        };
        let mode = if str_eq(mode.as_str(), "save") {
            ChooserMode::Save
        } else if str_eq(mode.as_str(), "save_files") {
            ChooserMode::SaveFiles
        } else {
            ChooserMode::Open
        };
        let title = match title {
            Some(t) => t,
            None => "Select file".to_string(),
        };
        let accept_label = match accept_label {
            Some(t) => t,
            None => "Select".to_string(),
        };
        let files = match &files {
            Some(f) => match parse_string_list(f.as_str()) {
                Some(list) => list,
                None => Vec::new(),
            },
            None => Vec::new(),
        };
        proof {
            assert(string_list_view(Seq::<String>::empty()) =~= Seq::<Seq<char>>::empty());
        }
        let config = ChooserConfig {
            active: true,
            mode,
            title,
            accept_label,
            directory: env_bool(&directory),
            multiple: env_bool(&multiple),
            current_folder: keep_nonempty(current_folder),
            current_name: keep_nonempty(current_name),
            files,
        };
        Some(Self { config, response_path })
    }
}

} // verus!
