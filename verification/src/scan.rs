//! The scan controller: one resolved configuration drives a search across
//! the files matched by a wildcard specification. The controller's decisions
//! live here as pure functions over one file's content and over one path
//! event; the caller performs the surrounding input and output.

use vstd::prelude::*;

use crate::matcher::insensitive_matches;
use crate::matcher::search;
use crate::matcher::search_case_insensitive;
use crate::matcher::sensitive_matches;

verus! {

/// One run's resolved settings: what to search for, where, and in which of
/// the two matching modes. Immutable once constructed.
pub struct Config {
    query: String,
    filename: String,
    case_sensitive: bool,
}

impl Config {
    /// The query this configuration searches for.
    pub closed spec fn spec_query(&self) -> Seq<char> {
        self.query@
    }

    /// The file path or wildcard specification to scan.
    pub closed spec fn spec_filename(&self) -> Seq<char> {
        self.filename@
    }

    /// Whether matching is exact rather than lowercase-folded.
    pub closed spec fn spec_case_sensitive(&self) -> bool {
        self.case_sensitive
    }

    pub fn new(query: String, filename: String, case_sensitive: bool) -> (config: Config)
        ensures
            config.spec_query() == query@,
            config.spec_filename() == filename@,
            config.spec_case_sensitive() == case_sensitive,
    {
        Config { query, filename, case_sensitive }
    }

    pub fn query(&self) -> (r: &str)
        ensures
            r@ == self.spec_query(),
    {
        self.query.as_str()
    }

    pub fn filename(&self) -> (r: &str)
        ensures
            r@ == self.spec_filename(),
    {
        self.filename.as_str()
    }

    pub fn case_sensitive(&self) -> (r: bool)
        ensures
            r == self.spec_case_sensitive(),
    {
        self.case_sensitive
    }
}

/// The lines of `contents` that `config` selects: exact matching when the
/// configuration is case-sensitive, lowercase-folded matching otherwise.
pub open spec fn config_matches(config: &Config, contents: Seq<char>) -> Seq<Seq<char>> {
    if config.spec_case_sensitive() {
        sensitive_matches(config.spec_query(), contents)
    } else {
        insensitive_matches(config.spec_query(), contents)
    }
}

/// The escape sequence that switches the terminal to a yellow foreground.
pub open spec fn highlight_prefix() -> Seq<char> {
    seq!['\u{1b}', '[', '3', '3', 'm']
}

/// The escape sequence that resets the terminal style.
pub open spec fn highlight_suffix() -> Seq<char> {
    seq!['\u{1b}', '[', '0', 'm']
}

/// `text` wrapped in the yellow-foreground and reset escape sequences.
pub open spec fn highlighted(text: Seq<char>) -> Seq<char> {
    highlight_prefix() + text + highlight_suffix()
}

/// Relies on `ansi_term`'s `Colour::Yellow.paint` and the `Display` of the
/// painted string: with only a yellow foreground set, the output is the
/// escape sequence `ESC [ 3 3 m`, the text unchanged, and the reset sequence
/// `ESC [ 0 m`.
#[verifier::external_body]
fn paint_path(path: &str) -> (r: String)
    ensures
        r@ == highlighted(path@),
{
    ansi_term::Colour::Yellow.paint(path).to_string()
}

/// What is printed for one file in which at least one line matched: the
/// file's path, decorated for emphasis, then the matching lines in order.
pub struct FileReport {
    pub header: String,
    pub lines: Vec<String>,
}

/// The report that `config` owes for a file at `path` whose decoded text is
/// `contents`: no report when no line matches, and otherwise the decorated
/// path together with exactly the matching lines, in order.
pub open spec fn report_for(
    config: &Config,
    path: Seq<char>,
    contents: Seq<char>,
    r: Option<FileReport>,
) -> bool {
    let ms = config_matches(config, contents);
    match r {
        None => ms.len() == 0,
        Some(report) => ms.len() > 0 && report.header@ == highlighted(path) && report.lines@
            .map_values(|l: String| l@) == ms,
    }
}

/// Scans one file's decoded text and decides what to print for it: nothing
/// when no line matches, and otherwise the decorated path followed by the
/// matching lines.
pub fn run_file(config: &Config, path: &str, contents: &str) -> (r: Option<FileReport>)
    ensures
        report_for(config, path@, contents@, r),
{
    let found: Vec<&str> = if config.case_sensitive() {
        search(config.query(), contents)
    } else {
        search_case_insensitive(config.query(), contents)
    };
    if found.len() == 0 {
        return None;
    }
    let header = paint_path(path);
    let mut lines: Vec<String> = Vec::new();
    let n = found.len();
    let mut i: usize = 0;
    while i < n
        invariant
            0 <= i <= n,
            n == found@.len(),
            lines@.len() == i,
            forall|j: int| 0 <= j < i ==> lines@[j]@ == found@[j]@,
        decreases n - i,
    {
        lines.push(found[i].to_owned());
        i += 1;
    }
    proof {
        assert(lines@.map_values(|l: String| l@) =~= found@.map_values(|l: &str| l@));
    }
    Some(FileReport { header, lines })
}

/// The text that the host's lenient decoding reads out of `bytes`: invalid
/// sequences are replaced, never rejected.
pub uninterp spec fn lossy_decode_of(bytes: Seq<u8>) -> Seq<char>;

/// Relies on `String::from_utf8_lossy`: invalid UTF-8 sequences are replaced
/// with the replacement character, and the result is a pure function of the
/// bytes alone.
#[verifier::external_body]
fn decode_lossy(bytes: &Vec<u8>) -> (r: String)
    ensures
        r@ == lossy_decode_of(bytes@),
{
    String::from_utf8_lossy(bytes.as_slice()).into_owned()
}

/// One step of the wildcard scan: what the controller does with one path
/// resolution handed to it by the expansion of the file specification.
pub enum PathEvent {
    /// A concrete path was resolved; `read` carries the file's raw bytes, or
    /// the message of the input error that opening or reading it raised.
    Resolved { path: String, read: Result<Vec<u8>, String> },
    /// A candidate path could not be resolved; `cause` names why.
    Unresolved { cause: String },
}

/// What the controller decides to do in answer to one path event.
pub enum ScanAction {
    /// Print the report on the normal output channel.
    Emit { report: FileReport },
    /// Print nothing for this file and continue.
    Skip,
    /// Print the message on the error channel and continue.
    Diagnose { message: String },
    /// Stop the whole run and fail with this message.
    Abort { message: String },
}

/// The diagnostic line owed for an unresolved path candidate.
pub open spec fn diagnostic_of(cause: Seq<char>) -> Seq<char> {
    "Error: "@ + cause
}

/// The action that `config` owes for `event`: an unresolved candidate is
/// diagnosed and the run continues; a file that cannot be read aborts the
/// run; a readable file is decoded leniently, scanned, and reported exactly
/// when some line matches.
pub open spec fn step_for(config: &Config, event: PathEvent, action: ScanAction) -> bool {
    match event {
        PathEvent::Unresolved { cause } => action matches ScanAction::Diagnose { message }
            && message@ == diagnostic_of(cause@),
        PathEvent::Resolved { path, read } => match read {
            Result::Err(e) => action matches ScanAction::Abort { message } && message@ == e@,
            Result::Ok(bytes) => {
                let ms = config_matches(config, lossy_decode_of(bytes@));
                if ms.len() == 0 {
                    action matches ScanAction::Skip
                } else {
                    action matches ScanAction::Emit { report } && report.header@ == highlighted(
                        path@,
                    ) && report.lines@.map_values(|l: String| l@) == ms
                }
            },
        },
    }
}

/// Decides what one path resolution leads to, as `step_for` states: a
/// diagnostic for a failed resolution, an abort for a file that could not be
/// read, and otherwise a scan of the leniently decoded bytes whose report is
/// emitted exactly when some line matches.
pub fn scan_step(config: &Config, event: PathEvent) -> (action: ScanAction)
    ensures
        step_for(config, event, action),
{
    match event {
        PathEvent::Unresolved { cause } => {
            let message = String::from_str("Error: ").concat(cause.as_str());
            ScanAction::Diagnose { message }
        },
        PathEvent::Resolved { path, read } => match read {
            Result::Err(e) => ScanAction::Abort { message: e },
            Result::Ok(bytes) => {
                let contents = decode_lossy(&bytes);
                match run_file(config, path.as_str(), contents.as_str()) {
                    None => ScanAction::Skip,
                    Some(report) => ScanAction::Emit { report },
                }
            },
        },
    }
}

/// A report seen through its mathematical content: the header text and the
/// line texts, with the containers forgotten.
pub open spec fn report_view(r: Option<FileReport>) -> Option<(Seq<char>, Seq<Seq<char>>)> {
    match r {
        None => None,
        Some(report) => Some((report.header@, report.lines@.map_values(|l: String| l@))),
    }
}

/// Scanning is deterministic: for one configuration, one path and one
/// unchanged content, any two reports the per-file scan admits say the same
/// thing, so running the whole scan twice over an unmodified file set
/// produces identical output, file by file.
pub proof fn lemma_scan_deterministic(
    config: &Config,
    path: Seq<char>,
    contents: Seq<char>,
    r1: Option<FileReport>,
    r2: Option<FileReport>,
)
    requires
        report_for(config, path, contents, r1),
        report_for(config, path, contents, r2),
    ensures
        report_view(r1) == report_view(r2),
{
}

/// Two actions say the same thing: they are the same kind of action and
/// carry the same report or message text.
pub open spec fn action_agrees(a1: ScanAction, a2: ScanAction) -> bool {
    match (a1, a2) {
        (ScanAction::Emit { report: r1 }, ScanAction::Emit { report: r2 }) => report_view(
            Some(r1),
        ) == report_view(Some(r2)),
        (ScanAction::Skip, ScanAction::Skip) => true,
        (ScanAction::Diagnose { message: m1 }, ScanAction::Diagnose { message: m2 }) => m1@ == m2@,
        (ScanAction::Abort { message: m1 }, ScanAction::Abort { message: m2 }) => m1@ == m2@,
        _ => false,
    }
}

/// The controller is deterministic step by step: for one configuration and
/// one path event, any two actions the step admits agree, so a second run
/// over the same unmodified file set repeats the first run's output.
pub proof fn lemma_step_deterministic(
    config: &Config,
    event: PathEvent,
    a1: ScanAction,
    a2: ScanAction,
)
    requires
        step_for(config, event, a1),
        step_for(config, event, a2),
    ensures
        action_agrees(a1, a2),
{
}

} // verus!
