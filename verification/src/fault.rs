//! Why a request could not be answered, and what the caller is told.
//!
//! A fault keeps two audiences apart. [`Fault::message`] is what the model
//! sees: it never carries a path, an operating-system error or any other detail
//! of the machine. [`Fault::log_line`] is the diagnostic for the operator.
use vstd::prelude::*;

verus! {

/// Which kind of protocol error a fault is reported as.
#[derive(Clone, Copy, Debug, PartialEq, Eq, Structural)]
pub enum FaultKind {
    /// The machine could not be read; the request was fine.
    InternalError,
    /// The request names something that does not exist.
    InvalidParams,
}

/// Why a request could not be answered.
pub enum Fault {
    /// A file that every machine provides could not be read.
    Unreadable { path: String, detail: String },
    /// A file was read, and `what` was not found in it.
    Malformed { path: String, what: String },
    /// No target goes by this alias.
    UnknownTarget { target: String },
    /// No container on `target` has this ID.
    UnknownContainer { target: String, container: String },
}

/// A fault with its strings taken as characters.
pub enum FaultView {
    Unreadable { path: Seq<char>, detail: Seq<char> },
    Malformed { path: Seq<char>, what: Seq<char> },
    UnknownTarget { target: Seq<char> },
    UnknownContainer { target: Seq<char>, container: Seq<char> },
}

impl View for Fault {
    type V = FaultView;

    open spec fn view(&self) -> FaultView {
        match self {
            Fault::Unreadable { path, detail } => FaultView::Unreadable {
                path: path@,
                detail: detail@,
            },
            Fault::Malformed { path, what } => FaultView::Malformed { path: path@, what: what@ },
            Fault::UnknownTarget { target } => FaultView::UnknownTarget { target: target@ },
            Fault::UnknownContainer { target, container } => FaultView::UnknownContainer {
                target: target@,
                container: container@,
            },
        }
    }
}

/// What the model is told when the machine could not be read.
pub open spec fn flat_message() -> Seq<char> {
    "failed to read system information"@
}

/// The text of a string as `{:?}` renders it: in double quotes, with escapes.
pub uninterp spec fn debug_text(s: Seq<char>) -> Seq<char>;

/// What the model is told about an alias that names no target, given the
/// alias as `{:?}` renders it.
pub open spec fn unknown_target_text(quoted: Seq<char>) -> Seq<char> {
    "unknown target "@ + quoted + "; the only available target is \"local\""@
}

/// What the model is told about an ID that names no container, given the ID and
/// the target as `{:?}` renders them.
pub open spec fn unknown_container_text(container: Seq<char>, target: Seq<char>) -> Seq<char> {
    "no container "@ + container + " on target "@ + target
        + "; call container_list for the containers that exist now"@
}

impl FaultView {
    /// The kind of protocol error.
    pub open spec fn kind(self) -> FaultKind {
        match self {
            FaultView::Unreadable { .. } => FaultKind::InternalError,
            FaultView::Malformed { .. } => FaultKind::InternalError,
            FaultView::UnknownTarget { .. } => FaultKind::InvalidParams,
            FaultView::UnknownContainer { .. } => FaultKind::InvalidParams,
        }
    }

    /// What the model is told.
    pub open spec fn message(self) -> Seq<char> {
        match self {
            FaultView::Unreadable { .. } => flat_message(),
            FaultView::Malformed { .. } => flat_message(),
            FaultView::UnknownTarget { target } => unknown_target_text(debug_text(target)),
            FaultView::UnknownContainer { target, container } => unknown_container_text(
                debug_text(container),
                debug_text(target),
            ),
        }
    }

    /// What the operator is told, where there is anything to add.
    pub open spec fn log_line(self) -> Option<Seq<char>> {
        match self {
            FaultView::Unreadable { path, detail } => Some(
                "ops-mcp: failed to read "@ + path + ": "@ + detail,
            ),
            FaultView::Malformed { path, what } => Some(
                "ops-mcp: could not parse "@ + what + " from "@ + path,
            ),
            FaultView::UnknownTarget { .. } => None,
            FaultView::UnknownContainer { .. } => None,
        }
    }
}

/// `{:?}` on a string, by the standard library's `Debug` for `str`. What it
/// escapes, and how, is not stated: only that the result depends on the string
/// alone.
#[verifier::external_body]
fn debug_quoted(s: &str) -> (r: String)
    ensures
        r@ == debug_text(s@),
{
    format!("{:?}", s)
}

/// What the model is told about an alias that names no target.
pub fn unknown_target_message(quoted: &str) -> (r: String)
    ensures
        r@ == unknown_target_text(quoted@),
{
    let mut r = String::new();
    r.append("unknown target ");
    r.append(quoted);
    r.append("; the only available target is \"local\"");
    assert(r@ =~= unknown_target_text(quoted@));
    r
}

/// What the model is told about an ID that names no container.
pub fn unknown_container_message(container: &str, target: &str) -> (r: String)
    ensures
        r@ == unknown_container_text(container@, target@),
{
    let mut r = String::new();
    r.append("no container ");
    r.append(container);
    r.append(" on target ");
    r.append(target);
    r.append("; call container_list for the containers that exist now");
    assert(r@ =~= unknown_container_text(container@, target@));
    r
}

impl Fault {
    /// The kind of protocol error this is reported as.
    pub fn kind(&self) -> (r: FaultKind)
        ensures
            r == self@.kind(),
    {
        match self {
            Fault::Unreadable { .. } => FaultKind::InternalError,
            Fault::Malformed { .. } => FaultKind::InternalError,
            Fault::UnknownTarget { .. } => FaultKind::InvalidParams,
            Fault::UnknownContainer { .. } => FaultKind::InvalidParams,
        }
    }

    /// What the model is told.
    pub fn message(&self) -> (r: String)
        ensures
            r@ == self@.message(),
    {
        match self {
            Fault::Unreadable { .. } => "failed to read system information".to_owned(),
            Fault::Malformed { .. } => "failed to read system information".to_owned(),
            Fault::UnknownTarget { target } => {
                let quoted = debug_quoted(target.as_str());
                unknown_target_message(quoted.as_str())
            },
            Fault::UnknownContainer { target, container } => {
                let quoted = debug_quoted(container.as_str());
                let on = debug_quoted(target.as_str());
                unknown_container_message(quoted.as_str(), on.as_str())
            },
        }
    }

    /// What the operator is told, where there is anything to add.
    pub fn log_line(&self) -> (r: Option<String>)
        ensures
            match r {
                Some(line) => self@.log_line() == Some(line@),
                None => self@.log_line() is None,
            },
    {
        match self {
            Fault::Unreadable { path, detail } => {
                let mut r = String::new();
                r.append("ops-mcp: failed to read ");
                r.append(path.as_str());
                r.append(": ");
                r.append(detail.as_str());
                assert(r@ =~= "ops-mcp: failed to read "@ + path@ + ": "@ + detail@);
                Some(r)
            },
            Fault::Malformed { path, what } => {
                let mut r = String::new();
                r.append("ops-mcp: could not parse ");
                r.append(what.as_str());
                r.append(" from ");
                r.append(path.as_str());
                assert(r@ =~= "ops-mcp: could not parse "@ + what@ + " from "@ + path@);
                Some(r)
            },
            _ => None,
        }
    }
}

/// The model is told the same whatever could not be read, and why, so nothing
/// of the path, the operating system's error or the file's content reaches it.
pub proof fn law_machine_faults_look_alike(a: FaultView, b: FaultView)
    requires
        a.kind() == FaultKind::InternalError,
        b.kind() == FaultKind::InternalError,
    ensures
        a.message() == b.message(),
        a.message() == flat_message(),
{
}

/// Exactly the faults of the machine leave a line for the operator.
pub proof fn law_machine_faults_are_logged(f: FaultView)
    ensures
        f.log_line() is Some <==> f.kind() == FaultKind::InternalError,
{
}

/// A request that names nothing there is answers as such, with every name it gave
/// quoted in full; a fault of the machine answers as the server's own, and its log
/// line gives the path and the reason in full.
pub proof fn law_what_each_fault_says(a: Seq<char>, b: Seq<char>)
    ensures
        (FaultView::UnknownTarget { target: a }).kind() == FaultKind::InvalidParams,
        (FaultView::UnknownContainer { target: a, container: b }).kind()
            == FaultKind::InvalidParams,
        (FaultView::Unreadable { path: a, detail: b }).kind() == FaultKind::InternalError,
        (FaultView::Malformed { path: a, what: b }).kind() == FaultKind::InternalError,
        (FaultView::UnknownTarget { target: a }).message() == "unknown target "@ + debug_text(a)
            + "; the only available target is \"local\""@,
        (FaultView::UnknownContainer { target: a, container: b }).message() == "no container "@
            + debug_text(b) + " on target "@ + debug_text(a)
            + "; call container_list for the containers that exist now"@,
        (FaultView::Unreadable { path: a, detail: b }).message()
            == "failed to read system information"@,
        (FaultView::Malformed { path: a, what: b }).message()
            == "failed to read system information"@,
        (FaultView::Unreadable { path: a, detail: b }).log_line() == Some(
            "ops-mcp: failed to read "@ + a + ": "@ + b,
        ),
        (FaultView::Malformed { path: a, what: b }).log_line() == Some(
            "ops-mcp: could not parse "@ + b + " from "@ + a,
        ),
        (FaultView::UnknownTarget { target: a }).log_line() is None,
        (FaultView::UnknownContainer { target: a, container: b }).log_line() is None,
{
}

/// A fault is shown as the variant that it is, with its own strings.
pub proof fn law_a_fault_shows_its_strings(f: Fault)
    ensures
        f matches Fault::Unreadable { path, detail } ==> f@ == (FaultView::Unreadable {
            path: path@,
            detail: detail@,
        }),
        f matches Fault::Malformed { path, what } ==> f@ == (FaultView::Malformed {
            path: path@,
            what: what@,
        }),
        f matches Fault::UnknownTarget { target } ==> f@ == (FaultView::UnknownTarget {
            target: target@,
        }),
        f matches Fault::UnknownContainer { target, container } ==> f@
            == (FaultView::UnknownContainer { target: target@, container: container@ }),
{
}

} // verus!
