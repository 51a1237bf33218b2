//! What the command line asks for, and which action answers it.
use vstd::prelude::*;

verus! {

/// A subcommand.
#[derive(Debug)]
pub enum Command {
    /// Report on dependencies and the compute backend.
    Doctor,
    /// Manage the retrieval cache, with the given action.
    Cache(String),
}

/// What the command line holds, as far as the choice of action depends on it.
#[derive(Debug)]
pub struct Request {
    pub command: Option<Command>,
    pub verify_models: bool,
    pub uninstall: bool,
    pub graph_stats: bool,
    pub graph_query: Option<String>,
    pub image: Option<String>,
    pub audio: Option<String>,
    pub ask: Option<String>,
    pub has_doc: bool,
    pub has_txt: bool,
    pub has_dir: bool,
}

/// The action that answers a request.
#[derive(Debug)]
pub enum Action {
    Doctor,
    Cache(String),
    VerifyModels,
    Uninstall,
    GraphStats,
    GraphQuery(String),
    DescribeImage(String),
    TranscribeAudio(String),
    /// A question about a document or directory, answered through it.
    AskDocument(String),
    /// A question answered by the model directly.
    AskModel(String),
    /// Nothing was asked: print the help.
    Help,
}

/// The action for a request: a subcommand first; then, in this order,
/// `--verify-models`, `--uninstall`, `--graph-stats`, `--graph-query`,
/// `--image`, `--audio`, `--ask` (about a document when `--doc`, `--txt` or
/// `--dir` is given, else to the model); and the help when nothing is asked.
pub open spec fn action_spec(r: Request) -> Action {
    if r.command is Some {
        match r.command.unwrap() {
            Command::Doctor => Action::Doctor,
            Command::Cache(a) => Action::Cache(a),
        }
    } else if r.verify_models {
        Action::VerifyModels
    } else if r.uninstall {
        Action::Uninstall
    } else if r.graph_stats {
        Action::GraphStats
    } else if r.graph_query is Some {
        Action::GraphQuery(r.graph_query.unwrap())
    } else if r.image is Some {
        Action::DescribeImage(r.image.unwrap())
    } else if r.audio is Some {
        Action::TranscribeAudio(r.audio.unwrap())
    } else if r.ask is Some {
        if r.has_doc || r.has_txt || r.has_dir {
            Action::AskDocument(r.ask.unwrap())
        } else {
            Action::AskModel(r.ask.unwrap())
        }
    } else {
        Action::Help
    }
}

/// Whether the request asks for anything at all.
pub open spec fn asks_something(r: Request) -> bool {
    r.command is Some || r.verify_models || r.uninstall || r.graph_stats || r.graph_query is Some
        || r.image is Some || r.audio is Some || r.ask is Some
}

/// Chooses the action for a request. The help comes exactly when nothing is
/// asked, and a subcommand always wins over the flags.
pub fn choose_action(r: Request) -> (a: Action)
    ensures
        a == action_spec(r),
        (a is Help) <==> !asks_something(r),
        r.command is Some ==> (a is Doctor || a is Cache),
{
    let Request {
        command,
        verify_models,
        uninstall,
        graph_stats,
        graph_query,
        image,
        audio,
        ask,
        has_doc,
        has_txt,
        has_dir,
    } = r;
    if let Some(c) = command {
        return match c {
            Command::Doctor => Action::Doctor,
            Command::Cache(a) => Action::Cache(a),
        };
    }
    if verify_models {
        return Action::VerifyModels;
    }
    if uninstall {
        return Action::Uninstall;
    }
    if graph_stats {
        return Action::GraphStats;
    }
    if let Some(q) = graph_query {
        return Action::GraphQuery(q);
    }
    if let Some(p) = image {
        return Action::DescribeImage(p);
    }
    if let Some(p) = audio {
        return Action::TranscribeAudio(p);
    }
    if let Some(q) = ask {
        if has_doc || has_txt || has_dir {
            return Action::AskDocument(q);
        }
        return Action::AskModel(q);
    }
    Action::Help
}

/// A question goes through the document whenever `--doc`, `--txt` or
/// `--dir` is given (any one of them), and to the model directly when none
/// is; this holds whenever nothing earlier in the order (a subcommand,
/// `--verify-models`, `--uninstall`, `--graph-stats`, `--graph-query`,
/// `--image`, `--audio`) is asked for.
pub proof fn law_questions_follow_document_flags(r: Request)
    ensures
        ({
            let nothing_earlier = r.command is None && !r.verify_models && !r.uninstall
                && !r.graph_stats && r.graph_query is None && r.image is None && r.audio is None;
            &&& (nothing_earlier && r.ask is Some && r.has_doc) ==> action_spec(r) == Action::AskDocument(r.ask.unwrap())
            &&& (nothing_earlier && r.ask is Some && r.has_txt) ==> action_spec(r) == Action::AskDocument(r.ask.unwrap())
            &&& (nothing_earlier && r.ask is Some && r.has_dir) ==> action_spec(r) == Action::AskDocument(r.ask.unwrap())
            &&& (nothing_earlier && r.ask is Some && !r.has_doc && !r.has_txt && !r.has_dir) ==> action_spec(r)
                == Action::AskModel(r.ask.unwrap())
        }),
{
}

} // verus!
